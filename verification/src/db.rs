//! The metadata store: accounts, API tokens, plugins and versions, with
//! upserts by natural key.
//!
//! [`DbView`] is the store as contracts see it; each operation is a function
//! on that view first, and [`Database`] carries it out.

use crate::error::{Error, ErrorView};
use crate::models::{
    ApiToken, ApiTokenView, EncodeApiToken, Plugin, PluginView, User, UserView, Version,
    VersionView,
};
use crate::seqs::{
    first_match, is_ranking, lemma_first_match_absent, lemma_first_match_found, rank_descending,
};
use crate::text::{copy_bytes, same_bytes, same_text};
use crate::token::{digest_of, SecureToken};
use vstd::prelude::*;

verus! {

/// The four tables and the next free id of each.
pub struct DbView {
    pub users: Seq<UserView>,
    pub api_tokens: Seq<ApiTokenView>,
    pub plugins: Seq<PluginView>,
    pub versions: Seq<VersionView>,
    pub next_user_id: i32,
    pub next_token_id: i32,
    pub next_plugin_id: i32,
    pub next_version_id: i32,
}

/// The account with a given id.
pub open spec fn user_has_id(id: i32) -> spec_fn(UserView) -> bool {
    |u: UserView| u.id == id
}

/// The account with a given provider id.
pub open spec fn user_has_gh_id(gh_id: i32) -> spec_fn(UserView) -> bool {
    |u: UserView| u.gh_id == gh_id
}

/// An account with a given provider login.
pub open spec fn user_has_login(login: Seq<char>) -> spec_fn(UserView) -> bool {
    |u: UserView| u.gh_login == login
}

/// A token that is not revoked and stands for the given digest.
pub open spec fn token_live_with(digest: Seq<u8>) -> spec_fn(ApiTokenView) -> bool {
    |t: ApiTokenView| !t.revoked && t.token == digest
}

/// The token with the given id, if it belongs to the given account.
pub open spec fn token_owned(user_id: i32, id: i32) -> spec_fn(ApiTokenView) -> bool {
    |t: ApiTokenView| t.user_id == user_id && t.id == id
}

/// A token that the given account lists: its own, and not revoked.
pub open spec fn token_listed(user_id: i32) -> spec_fn(ApiTokenView) -> bool {
    |t: ApiTokenView| t.user_id == user_id && !t.revoked
}

/// The plugin with a given id.
pub open spec fn plugin_has_id(id: i32) -> spec_fn(PluginView) -> bool {
    |p: PluginView| p.id == id
}

/// The plugin of a given owner and name.
pub open spec fn plugin_is(user_id: i32, name: Seq<char>) -> spec_fn(PluginView) -> bool {
    |p: PluginView| p.user_id == user_id && p.name == name
}

/// The version with a given id.
pub open spec fn version_has_id(id: i32) -> spec_fn(VersionView) -> bool {
    |v: VersionView| v.id == id
}

/// The version of a given plugin with a given version string.
pub open spec fn version_is(plugin_id: i32, num: Seq<char>) -> spec_fn(VersionView) -> bool {
    |v: VersionView| v.plugin_id == plugin_id && v.num == num
}

/// A version of the given plugin that has not been yanked.
pub open spec fn version_live_of(plugin_id: i32) -> spec_fn(VersionView) -> bool {
    |v: VersionView| v.plugin_id == plugin_id && !v.yanked
}

/// Whether an index found by a scan is the one the contract names.
pub open spec fn index_agrees(r: Option<usize>, m: Option<int>) -> bool {
    match r {
        Some(i) => m == Some(i as int),
        None => m is None,
    }
}

impl DbView {
    /// The empty store.
    pub open spec fn empty() -> DbView {
        DbView {
            users: Seq::empty(),
            api_tokens: Seq::empty(),
            plugins: Seq::empty(),
            versions: Seq::empty(),
            next_user_id: 1,
            next_token_id: 1,
            next_plugin_id: 1,
            next_version_id: 1,
        }
    }

    /// Ids are positive, below the next free id and never shared; no two
    /// accounts share a provider id; no two live tokens share a digest; no
    /// two plugins share owner and name; no two versions share plugin and
    /// version string; and every row belongs to a row of the store.
    pub open spec fn wf(self) -> bool {
        &&& self.next_user_id >= 1
        &&& self.next_token_id >= 1
        &&& self.next_plugin_id >= 1
        &&& self.next_version_id >= 1
        &&& forall|i: int|
            0 <= i < self.users.len() ==> 1 <= (#[trigger] self.users[i]).id < self.next_user_id
        &&& forall|i: int|
            0 <= i < self.api_tokens.len() ==> 1 <= (#[trigger] self.api_tokens[i]).id
                < self.next_token_id
        &&& forall|i: int|
            0 <= i < self.plugins.len() ==> 1 <= (#[trigger] self.plugins[i]).id
                < self.next_plugin_id
        &&& forall|i: int|
            0 <= i < self.versions.len() ==> 1 <= (#[trigger] self.versions[i]).id
                < self.next_version_id
        &&& forall|i: int, j: int|
            0 <= i < j < self.users.len() ==> (#[trigger] self.users[i]).id != (
            #[trigger] self.users[j]).id && self.users[i].gh_id != self.users[j].gh_id
        &&& forall|i: int, j: int|
            0 <= i < j < self.api_tokens.len() ==> (#[trigger] self.api_tokens[i]).id != (
            #[trigger] self.api_tokens[j]).id && !(!self.api_tokens[i].revoked
                && !self.api_tokens[j].revoked && self.api_tokens[i].token
                == self.api_tokens[j].token)
        &&& forall|i: int, j: int|
            0 <= i < j < self.plugins.len() ==> (#[trigger] self.plugins[i]).id != (
            #[trigger] self.plugins[j]).id && !(self.plugins[i].user_id == self.plugins[j].user_id
                && self.plugins[i].name == self.plugins[j].name)
        &&& forall|i: int, j: int|
            0 <= i < j < self.versions.len() ==> (#[trigger] self.versions[i]).id != (
            #[trigger] self.versions[j]).id && !(self.versions[i].plugin_id
                == self.versions[j].plugin_id && self.versions[i].num == self.versions[j].num)
        &&& self.owned()
    }

    /// Every token and every plugin belongs to an account of the store, and
    /// every version to a plugin of the store.
    pub open spec fn owned(self) -> bool {
        &&& forall|i: int|
            0 <= i < self.api_tokens.len() ==> first_match(
                self.users,
                user_has_id((#[trigger] self.api_tokens[i]).user_id),
            ) is Some
        &&& forall|i: int|
            0 <= i < self.plugins.len() ==> first_match(
                self.users,
                user_has_id((#[trigger] self.plugins[i]).user_id),
            ) is Some
        &&& forall|i: int|
            0 <= i < self.versions.len() ==> first_match(
                self.plugins,
                plugin_has_id((#[trigger] self.versions[i]).plugin_id),
            ) is Some
    }

    /// Insert an account, or on a known provider id replace its login and
    /// access token and keep its id.
    pub open spec fn upsert_user(
        self,
        gh_id: i32,
        gh_login: Seq<char>,
        gh_access_token: Seq<char>,
    ) -> (DbView, Result<UserView, ErrorView>) {
        match first_match(self.users, user_has_gh_id(gh_id)) {
            Some(i) => {
                let u = UserView { gh_login, gh_access_token, ..self.users[i] };
                (DbView { users: self.users.update(i, u), ..self }, Ok(u))
            },
            None => if self.next_user_id == i32::MAX {
                (self, Err(ErrorView::Internal))
            } else {
                let u = UserView { id: self.next_user_id, gh_access_token, gh_login, gh_id };
                (
                    DbView {
                        users: self.users.push(u),
                        next_user_id: (self.next_user_id + 1) as i32,
                        ..self
                    },
                    Ok(u),
                )
            },
        }
    }

    /// Add a token for an account, given the digest of its secret.
    pub open spec fn issue_token(self, user_id: i32, name: Seq<char>, digest: Seq<u8>, now: i64) -> (
        DbView,
        Result<ApiTokenView, ErrorView>,
    ) {
        if first_match(self.users, user_has_id(user_id)) is None {
            (self, Err(ErrorView::NotFound))
        } else if first_match(self.api_tokens, token_live_with(digest)) is Some {
            (self, Err(ErrorView::Conflict))
        } else if self.next_token_id == i32::MAX {
            (self, Err(ErrorView::Internal))
        } else {
            let t = ApiTokenView {
                id: self.next_token_id,
                user_id,
                token: digest,
                name,
                created_at: now,
                last_used_at: None,
                revoked: false,
            };
            (
                DbView {
                    api_tokens: self.api_tokens.push(t),
                    next_token_id: (self.next_token_id + 1) as i32,
                    ..self
                },
                Ok(t),
            )
        }
    }

    /// Revoke the token with the given id if the account owns it.
    pub open spec fn revoke(self, user_id: i32, id: i32) -> (DbView, Result<(), ErrorView>) {
        match first_match(self.api_tokens, token_owned(user_id, id)) {
            Some(i) => {
                let t = ApiTokenView { revoked: true, ..self.api_tokens[i] };
                (DbView { api_tokens: self.api_tokens.update(i, t), ..self }, Ok(()))
            },
            None => (self, Err(ErrorView::NotFound)),
        }
    }

    /// Look up the live token with the given digest and stamp its last use.
    pub open spec fn authenticate(self, digest: Seq<u8>, now: i64) -> (
        DbView,
        Result<ApiTokenView, ErrorView>,
    ) {
        match first_match(self.api_tokens, token_live_with(digest)) {
            Some(i) => {
                let t = ApiTokenView { last_used_at: Some(now), ..self.api_tokens[i] };
                (DbView { api_tokens: self.api_tokens.update(i, t), ..self }, Ok(t))
            },
            None => (self, Err(ErrorView::NotFound)),
        }
    }

    /// Insert a plugin, or on a known owner and name replace its display
    /// name, description and time of update.
    pub open spec fn upsert_plugin(self, p: NewPluginView, now: i64) -> (
        DbView,
        Result<PluginView, ErrorView>,
    ) {
        if first_match(self.users, user_has_id(p.user_id)) is None {
            (self, Err(ErrorView::NotFound))
        } else {
            match first_match(self.plugins, plugin_is(p.user_id, p.name)) {
                Some(i) => {
                    let row = PluginView {
                        display_name: p.display_name,
                        description: p.description,
                        updated_at: now,
                        ..self.plugins[i]
                    };
                    (DbView { plugins: self.plugins.update(i, row), ..self }, Ok(row))
                },
                None => if self.next_plugin_id == i32::MAX {
                    (self, Err(ErrorView::Internal))
                } else {
                    let row = PluginView {
                        id: self.next_plugin_id,
                        name: p.name,
                        user_id: p.user_id,
                        updated_at: now,
                        created_at: now,
                        display_name: p.display_name,
                        description: p.description,
                        downloads: p.downloads,
                        repository: p.repository,
                        wasm: p.wasm,
                    };
                    (
                        DbView {
                            plugins: self.plugins.push(row),
                            next_plugin_id: (self.next_plugin_id + 1) as i32,
                            ..self
                        },
                        Ok(row),
                    )
                },
            }
        }
    }

    /// Insert a version, or on a known plugin and version string replace its
    /// time of update.
    pub open spec fn upsert_version(self, v: NewVersionView, now: i64) -> (
        DbView,
        Result<VersionView, ErrorView>,
    ) {
        if first_match(self.plugins, plugin_has_id(v.plugin_id)) is None {
            (self, Err(ErrorView::NotFound))
        } else {
            match first_match(self.versions, version_is(v.plugin_id, v.num)) {
                Some(i) => {
                    let row = VersionView { updated_at: now, ..self.versions[i] };
                    (DbView { versions: self.versions.update(i, row), ..self }, Ok(row))
                },
                None => if self.next_version_id == i32::MAX {
                    (self, Err(ErrorView::Internal))
                } else {
                    let row = VersionView {
                        id: self.next_version_id,
                        plugin_id: v.plugin_id,
                        updated_at: now,
                        created_at: now,
                        num: v.num,
                        yanked: v.yanked,
                        downloads: 0,
                    };
                    (
                        DbView {
                            versions: self.versions.push(row),
                            next_version_id: (self.next_version_id + 1) as i32,
                            ..self
                        },
                        Ok(row),
                    )
                },
            }
        }
    }

    /// Set the yanked flag of one version of a plugin, and its time of update.
    pub open spec fn set_yanked(self, plugin_id: i32, num: Seq<char>, yanked: bool, now: i64) -> (
        DbView,
        Result<VersionView, ErrorView>,
    ) {
        match first_match(self.versions, version_is(plugin_id, num)) {
            Some(i) => {
                let row = VersionView { yanked, updated_at: now, ..self.versions[i] };
                (DbView { versions: self.versions.update(i, row), ..self }, Ok(row))
            },
            None => (self, Err(ErrorView::NotFound)),
        }
    }

    /// Count one download on a plugin and on one of its versions. Both
    /// counters move, or neither does.
    pub open spec fn count_download(self, plugin_id: i32, version_id: i32) -> (
        DbView,
        Result<(), ErrorView>,
    ) {
        match (
            first_match(self.plugins, plugin_has_id(plugin_id)),
            first_match(self.versions, version_has_id(version_id)),
        ) {
            (Some(i), Some(j)) => if self.plugins[i].downloads == i32::MAX
                || self.versions[j].downloads == i32::MAX {
                (self, Err(ErrorView::Internal))
            } else {
                let p = PluginView {
                    downloads: (self.plugins[i].downloads + 1) as i32,
                    ..self.plugins[i]
                };
                let v = VersionView {
                    downloads: (self.versions[j].downloads + 1) as i32,
                    ..self.versions[j]
                };
                (
                    DbView {
                        plugins: self.plugins.update(i, p),
                        versions: self.versions.update(j, v),
                        ..self
                    },
                    Ok(()),
                )
            },
            _ => (self, Err(ErrorView::NotFound)),
        }
    }
}

/// The store itself.
pub struct Database {
    users: Vec<User>,
    api_tokens: Vec<ApiToken>,
    plugins: Vec<Plugin>,
    versions: Vec<Version>,
    next_user_id: i32,
    next_token_id: i32,
    next_plugin_id: i32,
    next_version_id: i32,
}

impl View for Database {
    type V = DbView;

    closed spec fn view(&self) -> DbView {
        DbView {
            users: self.users@.map_values(|u: User| u@),
            api_tokens: self.api_tokens@.map_values(|t: ApiToken| t@),
            plugins: self.plugins@.map_values(|p: Plugin| p@),
            versions: self.versions@.map_values(|v: Version| v@),
            next_user_id: self.next_user_id,
            next_token_id: self.next_token_id,
            next_plugin_id: self.next_plugin_id,
            next_version_id: self.next_version_id,
        }
    }
}

/// A new account row.
#[derive(Clone, Copy, Debug)]
pub struct NewUser<'a> {
    pub gh_id: i32,
    pub gh_login: &'a str,
    pub gh_access_token: &'a str,
}

/// A new plugin row.
#[derive(Clone, Copy, Debug)]
pub struct NewPlugin<'a> {
    pub name: &'a str,
    pub user_id: i32,
    pub display_name: &'a str,
    pub description: &'a str,
    pub downloads: i32,
    pub repository: Option<&'a str>,
    pub wasm: bool,
}

/// A [`NewPlugin`] as contracts see it.
pub struct NewPluginView {
    pub name: Seq<char>,
    pub user_id: i32,
    pub display_name: Seq<char>,
    pub description: Seq<char>,
    pub downloads: i32,
    pub repository: Option<Seq<char>>,
    pub wasm: bool,
}

impl<'a> View for NewPlugin<'a> {
    type V = NewPluginView;

    open spec fn view(&self) -> NewPluginView {
        NewPluginView {
            name: self.name@,
            user_id: self.user_id,
            display_name: self.display_name@,
            description: self.description@,
            downloads: self.downloads,
            repository: match self.repository {
                Some(r) => Some(r@),
                None => None,
            },
            wasm: self.wasm,
        }
    }
}

/// A new version row.
#[derive(Clone, Copy, Debug)]
pub struct NewVersion<'a> {
    pub plugin_id: i32,
    pub num: &'a str,
    pub yanked: bool,
}

/// A [`NewVersion`] as contracts see it.
pub struct NewVersionView {
    pub plugin_id: i32,
    pub num: Seq<char>,
    pub yanked: bool,
}

impl<'a> View for NewVersion<'a> {
    type V = NewVersionView;

    open spec fn view(&self) -> NewVersionView {
        NewVersionView { plugin_id: self.plugin_id, num: self.num@, yanked: self.yanked }
    }
}

impl Database {
    /// An empty store.
    pub fn new() -> (db: Database)
        ensures
            db@ == DbView::empty(),
            db@.wf(),
    {
        let db = Database {
            users: Vec::new(),
            api_tokens: Vec::new(),
            plugins: Vec::new(),
            versions: Vec::new(),
            next_user_id: 1,
            next_token_id: 1,
            next_plugin_id: 1,
            next_version_id: 1,
        };
        assert(db@.users =~= Seq::empty());
        assert(db@.api_tokens =~= Seq::empty());
        assert(db@.plugins =~= Seq::empty());
        assert(db@.versions =~= Seq::empty());
        db
    }

    /// The account table, in order of insertion.
    pub fn users(&self) -> (r: &Vec<User>)
        ensures
            r@.map_values(|u: User| u@) == self@.users,
    {
        &self.users
    }

    /// The token table, in order of insertion.
    pub fn api_tokens(&self) -> (r: &Vec<ApiToken>)
        ensures
            r@.map_values(|t: ApiToken| t@) == self@.api_tokens,
    {
        &self.api_tokens
    }

    /// The plugin table, in order of insertion.
    pub fn plugins(&self) -> (r: &Vec<Plugin>)
        ensures
            r@.map_values(|p: Plugin| p@) == self@.plugins,
    {
        &self.plugins
    }

    /// The version table, in order of insertion.
    pub fn versions(&self) -> (r: &Vec<Version>)
        ensures
            r@.map_values(|v: Version| v@) == self@.versions,
    {
        &self.versions
    }

    fn user_index_by_id(&self, id: i32) -> (r: Option<usize>)
        ensures
            index_agrees(r, first_match(self@.users, user_has_id(id))),
            r matches Some(i) ==> i < self.users.len(),
    {
        let mut i: usize = 0;
        while i < self.users.len()
            invariant
                i <= self.users.len(),
                forall|j: int| 0 <= j < i ==> self.users@[j].id != id,
            decreases self.users.len() - i,
        {
            if self.users[i].id == id {
                proof {
                    lemma_first_match_found(self@.users, user_has_id(id), 0, i as int);
                }
                return Some(i);
            }
            i += 1;
        }
        proof {
            lemma_first_match_absent(self@.users, user_has_id(id), 0);
        }
        None
    }

    fn user_index_by_gh_id(&self, gh_id: i32) -> (r: Option<usize>)
        ensures
            index_agrees(r, first_match(self@.users, user_has_gh_id(gh_id))),
            r matches Some(i) ==> i < self.users.len(),
    {
        let mut i: usize = 0;
        while i < self.users.len()
            invariant
                i <= self.users.len(),
                forall|j: int| 0 <= j < i ==> self.users@[j].gh_id != gh_id,
            decreases self.users.len() - i,
        {
            if self.users[i].gh_id == gh_id {
                proof {
                    lemma_first_match_found(self@.users, user_has_gh_id(gh_id), 0, i as int);
                }
                return Some(i);
            }
            i += 1;
        }
        proof {
            lemma_first_match_absent(self@.users, user_has_gh_id(gh_id), 0);
        }
        None
    }

    fn user_index_by_login(&self, login: &str) -> (r: Option<usize>)
        ensures
            index_agrees(r, first_match(self@.users, user_has_login(login@))),
            r matches Some(i) ==> i < self.users.len(),
    {
        let mut i: usize = 0;
        while i < self.users.len()
            invariant
                i <= self.users.len(),
                forall|j: int| 0 <= j < i ==> self.users@[j].gh_login@ != login@,
            decreases self.users.len() - i,
        {
            if same_text(self.users[i].gh_login.as_str(), login) {
                proof {
                    lemma_first_match_found(self@.users, user_has_login(login@), 0, i as int);
                }
                return Some(i);
            }
            i += 1;
        }
        proof {
            lemma_first_match_absent(self@.users, user_has_login(login@), 0);
        }
        None
    }

    fn token_index_live(&self, digest: &[u8]) -> (r: Option<usize>)
        ensures
            index_agrees(r, first_match(self@.api_tokens, token_live_with(digest@))),
            r matches Some(i) ==> i < self.api_tokens.len(),
    {
        let mut i: usize = 0;
        while i < self.api_tokens.len()
            invariant
                i <= self.api_tokens.len(),
                forall|j: int|
                    0 <= j < i ==> !(!self.api_tokens@[j].revoked && self.api_tokens@[j].token@
                        == digest@),
            decreases self.api_tokens.len() - i,
        {
            if !self.api_tokens[i].revoked && same_bytes(
                self.api_tokens[i].token.as_slice(),
                digest,
            ) {
                proof {
                    lemma_first_match_found(
                        self@.api_tokens,
                        token_live_with(digest@),
                        0,
                        i as int,
                    );
                }
                return Some(i);
            }
            i += 1;
        }
        proof {
            lemma_first_match_absent(self@.api_tokens, token_live_with(digest@), 0);
        }
        None
    }

    fn token_index_owned(&self, user_id: i32, id: i32) -> (r: Option<usize>)
        ensures
            index_agrees(r, first_match(self@.api_tokens, token_owned(user_id, id))),
            r matches Some(i) ==> i < self.api_tokens.len(),
    {
        let mut i: usize = 0;
        while i < self.api_tokens.len()
            invariant
                i <= self.api_tokens.len(),
                forall|j: int|
                    0 <= j < i ==> !(self.api_tokens@[j].user_id == user_id
                        && self.api_tokens@[j].id == id),
            decreases self.api_tokens.len() - i,
        {
            if self.api_tokens[i].user_id == user_id && self.api_tokens[i].id == id {
                proof {
                    lemma_first_match_found(
                        self@.api_tokens,
                        token_owned(user_id, id),
                        0,
                        i as int,
                    );
                }
                return Some(i);
            }
            i += 1;
        }
        proof {
            lemma_first_match_absent(self@.api_tokens, token_owned(user_id, id), 0);
        }
        None
    }

    fn plugin_index_by_id(&self, id: i32) -> (r: Option<usize>)
        ensures
            index_agrees(r, first_match(self@.plugins, plugin_has_id(id))),
            r matches Some(i) ==> i < self.plugins.len(),
    {
        let mut i: usize = 0;
        while i < self.plugins.len()
            invariant
                i <= self.plugins.len(),
                forall|j: int| 0 <= j < i ==> self.plugins@[j].id != id,
            decreases self.plugins.len() - i,
        {
            if self.plugins[i].id == id {
                proof {
                    lemma_first_match_found(self@.plugins, plugin_has_id(id), 0, i as int);
                }
                return Some(i);
            }
            i += 1;
        }
        proof {
            lemma_first_match_absent(self@.plugins, plugin_has_id(id), 0);
        }
        None
    }

    fn plugin_index(&self, user_id: i32, name: &str) -> (r: Option<usize>)
        ensures
            index_agrees(r, first_match(self@.plugins, plugin_is(user_id, name@))),
            r matches Some(i) ==> i < self.plugins.len(),
    {
        let mut i: usize = 0;
        while i < self.plugins.len()
            invariant
                i <= self.plugins.len(),
                forall|j: int|
                    0 <= j < i ==> !(self.plugins@[j].user_id == user_id && self.plugins@[j].name@
                        == name@),
            decreases self.plugins.len() - i,
        {
            if self.plugins[i].user_id == user_id && same_text(
                self.plugins[i].name.as_str(),
                name,
            ) {
                proof {
                    lemma_first_match_found(
                        self@.plugins,
                        plugin_is(user_id, name@),
                        0,
                        i as int,
                    );
                }
                return Some(i);
            }
            i += 1;
        }
        proof {
            lemma_first_match_absent(self@.plugins, plugin_is(user_id, name@), 0);
        }
        None
    }

    fn version_index_by_id(&self, id: i32) -> (r: Option<usize>)
        ensures
            index_agrees(r, first_match(self@.versions, version_has_id(id))),
            r matches Some(i) ==> i < self.versions.len(),
    {
        let mut i: usize = 0;
        while i < self.versions.len()
            invariant
                i <= self.versions.len(),
                forall|j: int| 0 <= j < i ==> self.versions@[j].id != id,
            decreases self.versions.len() - i,
        {
            if self.versions[i].id == id {
                proof {
                    lemma_first_match_found(self@.versions, version_has_id(id), 0, i as int);
                }
                return Some(i);
            }
            i += 1;
        }
        proof {
            lemma_first_match_absent(self@.versions, version_has_id(id), 0);
        }
        None
    }

    fn version_index(&self, plugin_id: i32, num: &str) -> (r: Option<usize>)
        ensures
            index_agrees(r, first_match(self@.versions, version_is(plugin_id, num@))),
            r matches Some(i) ==> i < self.versions.len(),
    {
        let mut i: usize = 0;
        while i < self.versions.len()
            invariant
                i <= self.versions.len(),
                forall|j: int|
                    0 <= j < i ==> !(self.versions@[j].plugin_id == plugin_id
                        && self.versions@[j].num@ == num@),
            decreases self.versions.len() - i,
        {
            if self.versions[i].plugin_id == plugin_id && same_text(
                self.versions[i].num.as_str(),
                num,
            ) {
                proof {
                    lemma_first_match_found(
                        self@.versions,
                        version_is(plugin_id, num@),
                        0,
                        i as int,
                    );
                }
                return Some(i);
            }
            i += 1;
        }
        proof {
            lemma_first_match_absent(self@.versions, version_is(plugin_id, num@), 0);
        }
        None
    }
}


/// A result as contracts see it.
pub open spec fn result_view<T: View>(r: Result<T, Error>) -> Result<T::V, ErrorView> {
    match r {
        Ok(v) => Ok(v@),
        Err(e) => Err(e@),
    }
}

/// A result without a value, as contracts see it.
pub open spec fn unit_result_view(r: Result<(), Error>) -> Result<(), ErrorView> {
    match r {
        Ok(v) => Ok(()),
        Err(e) => Err(e@),
    }
}

/// When a token was made, as a ranking key.
pub open spec fn token_created() -> spec_fn(ApiTokenView) -> int {
    |t: ApiTokenView| t.created_at as int
}

/// Whether a table of accounts holds, in its place, every account of
/// another with the same id.
pub open spec fn users_kept(before: Seq<UserView>, after: Seq<UserView>) -> bool {
    before.len() <= after.len() && forall|i: int|
        0 <= i < before.len() ==> (#[trigger] after[i]).id == before[i].id
}

/// Whether a table of plugins holds, in its place, every plugin of another
/// with the same id.
pub open spec fn plugins_kept(before: Seq<PluginView>, after: Seq<PluginView>) -> bool {
    before.len() <= after.len() && forall|i: int|
        0 <= i < before.len() ==> (#[trigger] after[i]).id == before[i].id
}

/// An account that was there is still there.
pub proof fn lemma_user_stays(before: Seq<UserView>, after: Seq<UserView>, id: i32)
    requires
        users_kept(before, after),
        first_match(before, user_has_id(id)) is Some,
    ensures
        first_match(after, user_has_id(id)) is Some,
{
    crate::seqs::lemma_first_match_means(before, user_has_id(id), 0);
    let i = first_match(before, user_has_id(id))->Some_0;
    assert(after[i].id == before[i].id);
    crate::seqs::lemma_first_match_exists(after, user_has_id(id), i);
}

/// A plugin that was there is still there.
pub proof fn lemma_plugin_stays(before: Seq<PluginView>, after: Seq<PluginView>, id: i32)
    requires
        plugins_kept(before, after),
        first_match(before, plugin_has_id(id)) is Some,
    ensures
        first_match(after, plugin_has_id(id)) is Some,
{
    crate::seqs::lemma_first_match_means(before, plugin_has_id(id), 0);
    let i = first_match(before, plugin_has_id(id))->Some_0;
    assert(after[i].id == before[i].id);
    crate::seqs::lemma_first_match_exists(after, plugin_has_id(id), i);
}

impl DbView {
    /// Rows that belonged to rows of this store belong to rows of `after`,
    /// where `after` holds the accounts and plugins of this store under
    /// their ids, and its tokens, plugins and versions refer to accounts and
    /// plugins that this store holds or that `after` holds.
    pub proof fn lemma_owned_after(self, after: DbView)
        requires
            self.owned(),
            users_kept(self.users, after.users),
            plugins_kept(self.plugins, after.plugins),
            forall|i: int|
                0 <= i < after.api_tokens.len() ==> first_match(
                    self.users,
                    user_has_id((#[trigger] after.api_tokens[i]).user_id),
                ) is Some,
            forall|i: int|
                0 <= i < after.plugins.len() ==> first_match(
                    self.users,
                    user_has_id((#[trigger] after.plugins[i]).user_id),
                ) is Some,
            forall|i: int|
                0 <= i < after.versions.len() ==> first_match(
                    self.plugins,
                    plugin_has_id((#[trigger] after.versions[i]).plugin_id),
                ) is Some || first_match(
                    after.plugins,
                    plugin_has_id(after.versions[i].plugin_id),
                ) is Some,
        ensures
            after.owned(),
    {
        assert forall|i: int| 0 <= i < after.api_tokens.len() implies first_match(
            after.users,
            user_has_id((#[trigger] after.api_tokens[i]).user_id),
        ) is Some by {
            lemma_user_stays(self.users, after.users, after.api_tokens[i].user_id);
        }
        assert forall|i: int| 0 <= i < after.plugins.len() implies first_match(
            after.users,
            user_has_id((#[trigger] after.plugins[i]).user_id),
        ) is Some by {
            lemma_user_stays(self.users, after.users, after.plugins[i].user_id);
        }
        assert forall|i: int| 0 <= i < after.versions.len() implies first_match(
            after.plugins,
            plugin_has_id((#[trigger] after.versions[i]).plugin_id),
        ) is Some by {
            if first_match(self.plugins, plugin_has_id(after.versions[i].plugin_id)) is Some {
                lemma_plugin_stays(self.plugins, after.plugins, after.versions[i].plugin_id);
            }
        }
    }

    /// The tokens an account lists: its own live tokens, newest first.
    pub open spec fn is_token_listing(self, user_id: i32, out: Seq<ApiTokenView>) -> bool {
        crate::seqs::is_ranked_by(
            self.api_tokens.filter(token_listed(user_id)),
            token_created(),
            out,
        )
    }

    /// An account's tokens are listed in one way and no other.
    pub proof fn lemma_token_listing_is_unique(
        self,
        user_id: i32,
        a: Seq<ApiTokenView>,
        b: Seq<ApiTokenView>,
    )
        requires
            self.is_token_listing(user_id, a),
            self.is_token_listing(user_id, b),
        ensures
            a == b,
    {
        crate::seqs::lemma_ranked_by_is_unique(
            self.api_tokens.filter(token_listed(user_id)),
            token_created(),
            a,
            b,
        );
    }

    /// Upserting an account keeps the store well formed.
    pub proof fn lemma_upsert_user_wf(self, gh_id: i32, login: Seq<char>, token: Seq<char>)
        requires
            self.wf(),
        ensures
            self.upsert_user(gh_id, login, token).0.wf(),
    {
        crate::seqs::lemma_first_match_means(self.users, user_has_gh_id(gh_id), 0);
        self.lemma_owned_after(self.upsert_user(gh_id, login, token).0);
    }

    /// Issuing a token keeps the store well formed.
    pub proof fn lemma_issue_token_wf(self, user_id: i32, name: Seq<char>, digest: Seq<u8>, now: i64)
        requires
            self.wf(),
        ensures
            self.issue_token(user_id, name, digest, now).0.wf(),
    {
        crate::seqs::lemma_first_match_means(self.api_tokens, token_live_with(digest), 0);
        let after = self.issue_token(user_id, name, digest, now).0;
        assert forall|i: int| 0 <= i < after.api_tokens.len() implies first_match(
            self.users,
            user_has_id((#[trigger] after.api_tokens[i]).user_id),
        ) is Some by {
            if i < self.api_tokens.len() {
                assert(after.api_tokens[i] == self.api_tokens[i]);
            }
        }
        self.lemma_owned_after(after);
    }

    /// Revoking a token keeps the store well formed.
    pub proof fn lemma_revoke_wf(self, user_id: i32, id: i32)
        requires
            self.wf(),
        ensures
            self.revoke(user_id, id).0.wf(),
    {
        crate::seqs::lemma_first_match_means(self.api_tokens, token_owned(user_id, id), 0);
        let after = self.revoke(user_id, id).0;
        assert forall|i: int| 0 <= i < after.api_tokens.len() implies first_match(
            self.users,
            user_has_id((#[trigger] after.api_tokens[i]).user_id),
        ) is Some by {
            assert(after.api_tokens[i].user_id == self.api_tokens[i].user_id);
        }
        self.lemma_owned_after(after);
    }

    /// Authenticating keeps the store well formed.
    pub proof fn lemma_authenticate_wf(self, digest: Seq<u8>, now: i64)
        requires
            self.wf(),
        ensures
            self.authenticate(digest, now).0.wf(),
    {
        crate::seqs::lemma_first_match_means(self.api_tokens, token_live_with(digest), 0);
        let after = self.authenticate(digest, now).0;
        assert forall|i: int| 0 <= i < after.api_tokens.len() implies first_match(
            self.users,
            user_has_id((#[trigger] after.api_tokens[i]).user_id),
        ) is Some by {
            assert(after.api_tokens[i].user_id == self.api_tokens[i].user_id);
        }
        self.lemma_owned_after(after);
    }

    /// Upserting a plugin keeps the store well formed.
    pub proof fn lemma_upsert_plugin_wf(self, p: NewPluginView, now: i64)
        requires
            self.wf(),
        ensures
            self.upsert_plugin(p, now).0.wf(),
    {
        crate::seqs::lemma_first_match_means(self.plugins, plugin_is(p.user_id, p.name), 0);
        let after = self.upsert_plugin(p, now).0;
        assert forall|i: int| 0 <= i < after.plugins.len() implies first_match(
            self.users,
            user_has_id((#[trigger] after.plugins[i]).user_id),
        ) is Some by {
            if i < self.plugins.len() {
                assert(after.plugins[i].user_id == self.plugins[i].user_id);
            }
        }
        self.lemma_owned_after(after);
    }

    /// Upserting a version keeps the store well formed.
    pub proof fn lemma_upsert_version_wf(self, v: NewVersionView, now: i64)
        requires
            self.wf(),
        ensures
            self.upsert_version(v, now).0.wf(),
    {
        crate::seqs::lemma_first_match_means(self.versions, version_is(v.plugin_id, v.num), 0);
        let after = self.upsert_version(v, now).0;
        assert forall|i: int| 0 <= i < after.versions.len() implies first_match(
            self.plugins,
            plugin_has_id((#[trigger] after.versions[i]).plugin_id),
        ) is Some by {
            if i < self.versions.len() {
                assert(after.versions[i].plugin_id == self.versions[i].plugin_id);
            }
        }
        self.lemma_owned_after(after);
    }

    /// Yanking or unyanking keeps the store well formed.
    pub proof fn lemma_set_yanked_wf(self, plugin_id: i32, num: Seq<char>, yanked: bool, now: i64)
        requires
            self.wf(),
        ensures
            self.set_yanked(plugin_id, num, yanked, now).0.wf(),
    {
        crate::seqs::lemma_first_match_means(self.versions, version_is(plugin_id, num), 0);
        let after = self.set_yanked(plugin_id, num, yanked, now).0;
        assert forall|i: int| 0 <= i < after.versions.len() implies first_match(
            self.plugins,
            plugin_has_id((#[trigger] after.versions[i]).plugin_id),
        ) is Some by {
            assert(after.versions[i].plugin_id == self.versions[i].plugin_id);
        }
        self.lemma_owned_after(after);
    }

    /// Counting a download keeps the store well formed.
    pub proof fn lemma_count_download_wf(self, plugin_id: i32, version_id: i32)
        requires
            self.wf(),
        ensures
            self.count_download(plugin_id, version_id).0.wf(),
    {
        crate::seqs::lemma_first_match_means(self.plugins, plugin_has_id(plugin_id), 0);
        crate::seqs::lemma_first_match_means(self.versions, version_has_id(version_id), 0);
        let after = self.count_download(plugin_id, version_id).0;
        assert forall|i: int| 0 <= i < after.plugins.len() implies first_match(
            self.users,
            user_has_id((#[trigger] after.plugins[i]).user_id),
        ) is Some by {
            assert(after.plugins[i].user_id == self.plugins[i].user_id);
        }
        assert forall|i: int| 0 <= i < after.versions.len() implies first_match(
            self.plugins,
            plugin_has_id((#[trigger] after.versions[i]).plugin_id),
        ) is Some by {
            assert(after.versions[i].plugin_id == self.versions[i].plugin_id);
        }
        self.lemma_owned_after(after);
    }
}

impl<'a> NewUser<'a> {
    /// A new account row with the given provider id, login and access token.
    pub fn new(gh_id: i32, gh_login: &'a str, gh_access_token: &'a str) -> (r: Self)
        ensures
            r.gh_id == gh_id,
            r.gh_login@ == gh_login@,
            r.gh_access_token@ == gh_access_token@,
    {
        NewUser { gh_id, gh_login, gh_access_token }
    }

    /// Inserts the account, or updates the one that has this provider id.
    pub fn create_or_update(&self, db: &mut Database) -> (r: Result<User, Error>)
        requires
            old(db)@.wf(),
        ensures
            final(db)@.wf(),
            final(db)@ == old(db)@.upsert_user(self.gh_id, self.gh_login@, self.gh_access_token@).0,
            result_view(r) == old(db)@.upsert_user(
                self.gh_id,
                self.gh_login@,
                self.gh_access_token@,
            ).1,
    {
        proof {
            old(db)@.lemma_upsert_user_wf(self.gh_id, self.gh_login@, self.gh_access_token@);
        }
        match db.user_index_by_gh_id(self.gh_id) {
            Some(i) => {
                let row = User {
                    id: db.users[i].id,
                    gh_access_token: self.gh_access_token.to_owned(),
                    gh_login: self.gh_login.to_owned(),
                    gh_id: db.users[i].gh_id,
                };
                let out = row.duplicate();
                db.users.set(i, row);
                assert(db@.users =~= old(db)@.users.update(i as int, out@));
                Ok(out)
            },
            None => {
                if db.next_user_id == i32::MAX {
                    return Err(Error::Internal);
                }
                let row = User {
                    id: db.next_user_id,
                    gh_access_token: self.gh_access_token.to_owned(),
                    gh_login: self.gh_login.to_owned(),
                    gh_id: self.gh_id,
                };
                let out = row.duplicate();
                db.users.push(row);
                db.next_user_id = db.next_user_id + 1;
                assert(db@.users =~= old(db)@.users.push(out@));
                Ok(out)
            },
        }
    }
}

impl<'a> NewPlugin<'a> {
    /// A new plugin row with no downloads yet.
    pub fn new(
        name: &'a str,
        user_id: i32,
        display_name: &'a str,
        description: &'a str,
        repository: Option<&'a str>,
        wasm: bool,
    ) -> (r: Self)
        ensures
            r@ == (NewPluginView {
                name: name@,
                user_id,
                display_name: display_name@,
                description: description@,
                downloads: 0,
                repository: match repository {
                    Some(s) => Some(s@),
                    None => None,
                },
                wasm,
            }),
    {
        NewPlugin { name, user_id, display_name, description, downloads: 0, repository, wasm }
    }

    /// Inserts the plugin, or updates the one that has this owner and name.
    pub fn create_or_update(&self, db: &mut Database, now: i64) -> (r: Result<Plugin, Error>)
        requires
            old(db)@.wf(),
        ensures
            final(db)@.wf(),
            final(db)@ == old(db)@.upsert_plugin(self@, now).0,
            result_view(r) == old(db)@.upsert_plugin(self@, now).1,
    {
        proof {
            old(db)@.lemma_upsert_plugin_wf(self@, now);
        }
        if db.user_index_by_id(self.user_id).is_none() {
            return Err(Error::NotFound);
        }
        match db.plugin_index(self.user_id, self.name) {
            Some(i) => {
                let cur = &db.plugins[i];
                let row = Plugin {
                    id: cur.id,
                    name: cur.name.clone(),
                    user_id: cur.user_id,
                    updated_at: now,
                    created_at: cur.created_at,
                    display_name: self.display_name.to_owned(),
                    description: self.description.to_owned(),
                    downloads: cur.downloads,
                    repository: crate::models::duplicate_opt(&cur.repository),
                    wasm: cur.wasm,
                };
                let out = row.duplicate();
                db.plugins.set(i, row);
                assert(db@.plugins =~= old(db)@.plugins.update(i as int, out@));
                Ok(out)
            },
            None => {
                if db.next_plugin_id == i32::MAX {
                    return Err(Error::Internal);
                }
                let row = Plugin {
                    id: db.next_plugin_id,
                    name: self.name.to_owned(),
                    user_id: self.user_id,
                    updated_at: now,
                    created_at: now,
                    display_name: self.display_name.to_owned(),
                    description: self.description.to_owned(),
                    downloads: self.downloads,
                    repository: match self.repository {
                        Some(s) => Some(s.to_owned()),
                        None => None,
                    },
                    wasm: self.wasm,
                };
                let out = row.duplicate();
                db.plugins.push(row);
                db.next_plugin_id = db.next_plugin_id + 1;
                assert(db@.plugins =~= old(db)@.plugins.push(out@));
                Ok(out)
            },
        }
    }
}

impl<'a> NewVersion<'a> {
    /// A new version row, not yanked.
    pub fn new(plugin_id: i32, num: &'a str) -> (r: Self)
        ensures
            r@ == (NewVersionView { plugin_id, num: num@, yanked: false }),
    {
        NewVersion { plugin_id, num, yanked: false }
    }

    /// Inserts the version, or updates the one that has this plugin and
    /// version string.
    pub fn create_or_update(&self, db: &mut Database, now: i64) -> (r: Result<Version, Error>)
        requires
            old(db)@.wf(),
        ensures
            final(db)@.wf(),
            final(db)@ == old(db)@.upsert_version(self@, now).0,
            result_view(r) == old(db)@.upsert_version(self@, now).1,
    {
        proof {
            old(db)@.lemma_upsert_version_wf(self@, now);
        }
        if db.plugin_index_by_id(self.plugin_id).is_none() {
            return Err(Error::NotFound);
        }
        match db.version_index(self.plugin_id, self.num) {
            Some(i) => {
                let cur = &db.versions[i];
                let row = Version {
                    id: cur.id,
                    plugin_id: cur.plugin_id,
                    updated_at: now,
                    created_at: cur.created_at,
                    num: cur.num.clone(),
                    yanked: cur.yanked,
                    downloads: cur.downloads,
                };
                let out = row.duplicate();
                db.versions.set(i, row);
                assert(db@.versions =~= old(db)@.versions.update(i as int, out@));
                Ok(out)
            },
            None => {
                if db.next_version_id == i32::MAX {
                    return Err(Error::Internal);
                }
                let row = Version {
                    id: db.next_version_id,
                    plugin_id: self.plugin_id,
                    updated_at: now,
                    created_at: now,
                    num: self.num.to_owned(),
                    yanked: self.yanked,
                    downloads: 0,
                };
                let out = row.duplicate();
                db.versions.push(row);
                db.next_version_id = db.next_version_id + 1;
                assert(db@.versions =~= old(db)@.versions.push(out@));
                Ok(out)
            },
        }
    }
}

/// The account with the given id.
pub fn find_user(db: &Database, id: i32) -> (r: Result<User, Error>)
    ensures
        result_view(r) == match first_match(db@.users, user_has_id(id)) {
            Some(i) => Ok::<UserView, ErrorView>(db@.users[i]),
            None => Err(ErrorView::NotFound),
        },
{
    match db.user_index_by_id(id) {
        Some(i) => Ok(db.users[i].duplicate()),
        None => Err(Error::NotFound),
    }
}

/// The first account with the given provider login.
pub fn find_user_by_gh_login(db: &Database, gh_login: &str) -> (r: Result<User, Error>)
    ensures
        result_view(r) == match first_match(db@.users, user_has_login(gh_login@)) {
            Some(i) => Ok::<UserView, ErrorView>(db@.users[i]),
            None => Err(ErrorView::NotFound),
        },
{
    match db.user_index_by_login(gh_login) {
        Some(i) => Ok(db.users[i].duplicate()),
        None => Err(Error::NotFound),
    }
}

/// The views of a list of tokens.
pub open spec fn token_views(v: Seq<ApiToken>) -> Seq<ApiTokenView> {
    v.map_values(|t: ApiToken| t@)
}

/// The live tokens of an account, newest first.
pub fn list_tokens(db: &Database, user: &User) -> (r: Result<Vec<ApiToken>, Error>)
    ensures
        r is Ok,
        db@.is_token_listing(user.id, token_views(r->Ok_0@)),
{
    let ghost pred = token_listed(user.id);
    let ghost all = db@.api_tokens;
    let mut live: Vec<ApiToken> = Vec::new();
    let mut keys: Vec<i64> = Vec::new();
    let mut i: usize = 0;
    proof {
        crate::seqs::lemma_filter_start(all, pred);
        assert(token_views(live@) =~= all.subrange(0, 0).filter(pred));
    }
    while i < db.api_tokens.len()
        invariant
            i <= db.api_tokens.len(),
            all == db@.api_tokens,
            pred == token_listed(user.id),
            token_views(live@) == all.subrange(0, i as int).filter(pred),
            keys@.len() == live@.len(),
            forall|k: int| 0 <= k < keys@.len() ==> keys@[k] == live@[k].created_at,
        decreases db.api_tokens.len() - i,
    {
        proof {
            crate::seqs::lemma_filter_step(all, pred, i as int);
        }
        let t = &db.api_tokens[i];
        if t.user_id == user.id && !t.revoked {
            let copy = t.duplicate();
            keys.push(copy.created_at);
            live.push(copy);
            assert(token_views(live@) =~= all.subrange(0, i as int).filter(pred).push(all[i as int]));
        }
        i += 1;
    }
    assert(all.subrange(0, i as int) =~= all);
    let order = rank_descending(&keys);
    let ghost rows = token_views(live@);
    let ghost ord = order@.map_values(|k: usize| k as int);
    assert(rows.map_values(token_created()) =~= keys@.map_values(|k: i64| k as int));
    let mut out: Vec<ApiToken> = Vec::new();
    let mut k: usize = 0;
    while k < order.len()
        invariant
            k <= order.len(),
            order@.len() == live@.len(),
            rows == token_views(live@),
            ord == order@.map_values(|k: usize| k as int),
            forall|q: int| 0 <= q < order@.len() ==> 0 <= #[trigger] ord[q] < live@.len(),
            out@.len() == k,
            forall|q: int| 0 <= q < k ==> (#[trigger] out@[q])@ == rows[ord[q]],
        decreases order.len() - k,
    {
        assert(0 <= ord[k as int] < live@.len());
        out.push(live[order[k]].duplicate());
        k += 1;
    }
    proof {
        assert(token_views(out@) =~= ord.map_values(|k: int| rows[k]));
        assert(is_ranking(rows.map_values(token_created()), ord));
    }
    Ok(out)
}

/// Adds a token for `user` whose secret is `secret`, and hands out the row
/// together with the secret.
pub fn insert_token_with(
    db: &mut Database,
    user: &User,
    name: &str,
    secret: &SecureToken,
    now: i64,
) -> (r: Result<EncodeApiToken, Error>)
    requires
        old(db)@.wf(),
    ensures
        final(db)@.wf(),
        final(db)@ == old(db)@.issue_token(user.id, name@, secret.spec_token(), now).0,
        match r {
            Ok(t) => old(db)@.issue_token(user.id, name@, secret.spec_token(), now).1 == Ok::<
                ApiTokenView,
                ErrorView,
            >(t.token@) && t.plaintext@ == secret.spec_plaintext(),
            Err(e) => old(db)@.issue_token(user.id, name@, secret.spec_token(), now).1 == Err::<
                ApiTokenView,
                ErrorView,
            >(e@),
        },
{
    proof {
        old(db)@.lemma_issue_token_wf(user.id, name@, secret.spec_token(), now);
    }
    if db.user_index_by_id(user.id).is_none() {
        return Err(Error::NotFound);
    }
    if db.token_index_live(secret.token()).is_some() {
        return Err(Error::Conflict);
    }
    if db.next_token_id == i32::MAX {
        return Err(Error::Internal);
    }
    let row = ApiToken {
        id: db.next_token_id,
        user_id: user.id,
        token: copy_bytes(secret.token()),
        name: name.to_owned(),
        created_at: now,
        last_used_at: None,
        revoked: false,
    };
    let out = row.duplicate();
    db.api_tokens.push(row);
    db.next_token_id = db.next_token_id + 1;
    assert(db@.api_tokens =~= old(db)@.api_tokens.push(out@));
    Ok(EncodeApiToken { token: out, plaintext: secret.plaintext().to_owned() })
}

/// Issues a token with a fresh random secret. The secret is in the result and
/// nowhere in the store. Whatever secret was drawn, the store and the result
/// are what [`DbView::issue_token`] says for its digest: `NotFound` exactly
/// where the account is not there, and success wherever the account is
/// there, no live token has the digest and an id is free.
pub fn insert_token(db: &mut Database, user: &User, name: &str, now: i64) -> (r: Result<
    EncodeApiToken,
    Error,
>)
    requires
        old(db)@.wf(),
    ensures
        final(db)@.wf(),
        match r {
            Ok(t) => {
                &&& t.plaintext@.len() == crate::token::SECRET_LEN
                &&& forall|i: int|
                    0 <= i < t.plaintext@.len() ==> crate::token::is_alphanumeric(
                        #[trigger] t.plaintext@[i],
                    )
                &&& old(db)@.issue_token(user.id, name@, digest_of(t.plaintext@), now) == (
                    final(db)@,
                    Ok::<ApiTokenView, ErrorView>(t.token@),
                )
            },
            Err(e) => final(db)@ == old(db)@ && (e@ is NotFound || e@ is Conflict || e@ is Internal),
        },
        exists|s: Seq<char>| #[trigger] issued_with(old(db)@, final(db)@, r, user.id, name@, now, s),
{
    let secret = SecureToken::new_token();
    let ghost s = secret.spec_plaintext();
    let r = insert_token_with(db, user, name, &secret, now);
    proof {
        assert(issued_with(old(db)@, db@, r, user.id, name@, now, s));
    }
    r
}

/// Whether a token was issued, or refused, with the secret `s`: `s` has the
/// length and the alphabet of a secret, the store and the result are what
/// issuing a token with its digest comes to, and a token that was issued
/// carries `s` and a digest of full length.
pub open spec fn issued_with(
    before: DbView,
    after: DbView,
    r: Result<EncodeApiToken, Error>,
    user_id: i32,
    name: Seq<char>,
    now: i64,
    s: Seq<char>,
) -> bool {
    &&& s.len() == crate::token::SECRET_LEN
    &&& forall|i: int| 0 <= i < s.len() ==> crate::token::is_alphanumeric(#[trigger] s[i])
    &&& (after, token_result_view(r)) == before.issue_token(user_id, name, digest_of(s), now)
    &&& r matches Ok(t) ==> t.plaintext@ == s && t.token@.token.len() == crate::token::DIGEST_LEN
}

/// An issued token, or why none was issued, as contracts see it.
pub open spec fn token_result_view(r: Result<EncodeApiToken, Error>) -> Result<
    ApiTokenView,
    ErrorView,
> {
    match r {
        Ok(t) => Ok(t.token@),
        Err(e) => Err(e@),
    }
}

/// Revokes the token with the given id if `user` owns it.
pub fn revoke_token(db: &mut Database, user: &User, id: i32) -> (r: Result<(), Error>)
    requires
        old(db)@.wf(),
    ensures
        final(db)@.wf(),
        final(db)@ == old(db)@.revoke(user.id, id).0,
        unit_result_view(r) == old(db)@.revoke(user.id, id).1,
{
    proof {
        old(db)@.lemma_revoke_wf(user.id, id);
    }
    match db.token_index_owned(user.id, id) {
        Some(i) => {
            let mut row = db.api_tokens[i].duplicate();
            row.revoked = true;
            let ghost v = row@;
            db.api_tokens.set(i, row);
            assert(db@.api_tokens =~= old(db)@.api_tokens.update(i as int, v));
            Ok(())
        },
        None => Err(Error::NotFound),
    }
}

/// The live token that a presented secret stands for, its last use stamped
/// with `now`.
pub fn find_api_token(db: &mut Database, api_token: &str, now: i64) -> (r: Result<ApiToken, Error>)
    requires
        old(db)@.wf(),
    ensures
        final(db)@.wf(),
        final(db)@ == old(db)@.authenticate(digest_of(api_token@), now).0,
        result_view(r) == old(db)@.authenticate(digest_of(api_token@), now).1,
{
    proof {
        old(db)@.lemma_authenticate_wf(digest_of(api_token@), now);
    }
    let secret = SecureToken::parse(api_token);
    match db.token_index_live(secret.token()) {
        Some(i) => {
            let mut row = db.api_tokens[i].duplicate();
            row.last_used_at = Some(now);
            let out = row.duplicate();
            db.api_tokens.set(i, row);
            assert(db@.api_tokens =~= old(db)@.api_tokens.update(i as int, out@));
            Ok(out)
        },
        None => Err(Error::NotFound),
    }
}

/// The plugin of `user` with the given name.
pub fn find_plugin(db: &Database, user: &User, name: &str) -> (r: Result<Plugin, Error>)
    ensures
        result_view(r) == match first_match(db@.plugins, plugin_is(user.id, name@)) {
            Some(i) => Ok::<PluginView, ErrorView>(db@.plugins[i]),
            None => Err(ErrorView::NotFound),
        },
{
    match db.plugin_index(user.id, name) {
        Some(i) => Ok(db.plugins[i].duplicate()),
        None => Err(Error::NotFound),
    }
}

/// The version of `plugin` with the given version string.
pub fn find_plugin_version(db: &Database, plugin: &Plugin, num: &str) -> (r: Result<Version, Error>)
    ensures
        result_view(r) == match first_match(db@.versions, version_is(plugin.id, num@)) {
            Some(i) => Ok::<VersionView, ErrorView>(db@.versions[i]),
            None => Err(ErrorView::NotFound),
        },
{
    match db.version_index(plugin.id, num) {
        Some(i) => Ok(db.versions[i].duplicate()),
        None => Err(Error::NotFound),
    }
}

/// Sets the yanked flag of one version of `plugin`.
pub fn modify_plugin_version_yank(
    db: &mut Database,
    plugin: &Plugin,
    num: &str,
    is_yanked: bool,
    now: i64,
) -> (r: Result<Version, Error>)
    requires
        old(db)@.wf(),
    ensures
        final(db)@.wf(),
        final(db)@ == old(db)@.set_yanked(plugin.id, num@, is_yanked, now).0,
        result_view(r) == old(db)@.set_yanked(plugin.id, num@, is_yanked, now).1,
{
    proof {
        old(db)@.lemma_set_yanked_wf(plugin.id, num@, is_yanked, now);
    }
    match db.version_index(plugin.id, num) {
        Some(i) => {
            let mut row = db.versions[i].duplicate();
            row.yanked = is_yanked;
            row.updated_at = now;
            let out = row.duplicate();
            db.versions.set(i, row);
            assert(db@.versions =~= old(db)@.versions.update(i as int, out@));
            Ok(out)
        },
        None => Err(Error::NotFound),
    }
}

/// Counts one download on a plugin and on one of its versions.
pub fn record_download(db: &mut Database, plugin_id: i32, version_id: i32) -> (r: Result<(), Error>)
    requires
        old(db)@.wf(),
    ensures
        final(db)@.wf(),
        final(db)@ == old(db)@.count_download(plugin_id, version_id).0,
        unit_result_view(r) == old(db)@.count_download(plugin_id, version_id).1,
{
    proof {
        old(db)@.lemma_count_download_wf(plugin_id, version_id);
    }
    let pi = db.plugin_index_by_id(plugin_id);
    let vi = db.version_index_by_id(version_id);
    match (pi, vi) {
        (Some(i), Some(j)) => {
            if db.plugins[i].downloads == i32::MAX || db.versions[j].downloads == i32::MAX {
                return Err(Error::Internal);
            }
            let mut p = db.plugins[i].duplicate();
            p.downloads = p.downloads + 1;
            let mut v = db.versions[j].duplicate();
            v.downloads = v.downloads + 1;
            let ghost pv = p@;
            let ghost vv = v@;
            db.plugins.set(i, p);
            db.versions.set(j, v);
            assert(db@.plugins =~= old(db)@.plugins.update(i as int, pv));
            assert(db@.versions =~= old(db)@.versions.update(j as int, vv));
            Ok(())
        },
        _ => Err(Error::NotFound),
    }
}

/// The views of a list of versions.
pub open spec fn version_views(v: Seq<Version>) -> Seq<VersionView> {
    v.map_values(|t: Version| t@)
}

/// The versions of a plugin that have not been yanked, in table order.
pub fn live_versions(db: &Database, plugin_id: i32) -> (r: Vec<Version>)
    ensures
        version_views(r@) == db@.versions.filter(version_live_of(plugin_id)),
{
    let ghost pred = version_live_of(plugin_id);
    let ghost all = db@.versions;
    let mut live: Vec<Version> = Vec::new();
    let mut i: usize = 0;
    proof {
        crate::seqs::lemma_filter_start(all, pred);
        assert(version_views(live@) =~= all.subrange(0, 0).filter(pred));
    }
    while i < db.versions.len()
        invariant
            i <= db.versions.len(),
            all == db@.versions,
            pred == version_live_of(plugin_id),
            version_views(live@) == all.subrange(0, i as int).filter(pred),
        decreases db.versions.len() - i,
    {
        proof {
            crate::seqs::lemma_filter_step(all, pred, i as int);
        }
        let t = &db.versions[i];
        if t.plugin_id == plugin_id && !t.yanked {
            live.push(t.duplicate());
            assert(version_views(live@) =~= all.subrange(0, i as int).filter(pred).push(
                all[i as int],
            ));
        }
        i += 1;
    }
    assert(all.subrange(0, i as int) =~= all);
    live
}

impl User {
    /// The account with the given id.
    pub fn find(db: &Database, id: i32) -> (r: Result<User, Error>)
        ensures
            result_view(r) == match first_match(db@.users, user_has_id(id)) {
                Some(i) => Ok::<UserView, ErrorView>(db@.users[i]),
                None => Err(ErrorView::NotFound),
            },
    {
        find_user(db, id)
    }
}

impl ApiToken {
    /// The live tokens of an account, newest first.
    pub fn list(db: &Database, user: &User) -> (r: Result<Vec<ApiToken>, Error>)
        ensures
            r is Ok,
            db@.is_token_listing(user.id, token_views(r->Ok_0@)),
    {
        list_tokens(db, user)
    }
}


impl DbView {
    /// Upsert the plugin and then the version, both or neither.
    pub open spec fn commit_release(self, p: NewPluginView, num: Seq<char>, now: i64) -> (
        DbView,
        Result<(PluginView, VersionView), ErrorView>,
    ) {
        let (d1, r1) = self.upsert_plugin(p, now);
        match r1 {
            Err(e) => (self, Err(e)),
            Ok(row) => {
                let (d2, r2) = d1.upsert_version(
                    NewVersionView { plugin_id: row.id, num, yanked: false },
                    now,
                );
                match r2 {
                    Err(e) => (self, Err(e)),
                    Ok(v) => (d2, Ok((row, v))),
                }
            },
        }
    }

    /// Committing a release keeps the store well formed.
    pub proof fn lemma_commit_release_wf(self, p: NewPluginView, num: Seq<char>, now: i64)
        requires
            self.wf(),
        ensures
            self.commit_release(p, num, now).0.wf(),
    {
        self.lemma_upsert_plugin_wf(p, now);
        let (d1, r1) = self.upsert_plugin(p, now);
        if let Ok(row) = r1 {
            d1.lemma_upsert_version_wf(NewVersionView { plugin_id: row.id, num, yanked: false }, now);
        }
    }

    /// Upserting one provider id twice: the second call succeeds whenever the
    /// first did, returns the id the first returned, and leaves exactly one
    /// account with that provider id, which carries the second call's login
    /// and access token.
    pub proof fn lemma_upsert_user_twice(
        self,
        gh_id: i32,
        login1: Seq<char>,
        token1: Seq<char>,
        login2: Seq<char>,
        token2: Seq<char>,
    )
        requires
            self.wf(),
        ensures
            ({
                let (d1, r1) = self.upsert_user(gh_id, login1, token1);
                let (d2, r2) = d1.upsert_user(gh_id, login2, token2);
                r1 matches Ok(u1) ==> {
                    &&& r2 matches Ok(u2)
                    &&& r2->Ok_0 == (UserView { id: u1.id, gh_id, gh_login: login2, gh_access_token: token2 })
                    &&& d2.users.len() == d1.users.len()
                    &&& exists|i: int|
                        0 <= i < d2.users.len() && #[trigger] d2.users[i] == r2->Ok_0 && forall|
                            j: int,
                        |
                            0 <= j < d2.users.len() && (#[trigger] d2.users[j]).gh_id == gh_id ==> j
                                == i
                }
            }),
    {
        let (d1, r1) = self.upsert_user(gh_id, login1, token1);
        self.lemma_upsert_user_wf(gh_id, login1, token1);
        crate::seqs::lemma_first_match_means(self.users, user_has_gh_id(gh_id), 0);
        if let Ok(u1) = r1 {
            let k = match first_match(self.users, user_has_gh_id(gh_id)) {
                Some(i) => i,
                None => self.users.len() as int,
            };
            assert(d1.users[k] == u1);
            crate::seqs::lemma_first_match_means(d1.users, user_has_gh_id(gh_id), 0);
            let (d2, r2) = d1.upsert_user(gh_id, login2, token2);
            d1.lemma_upsert_user_wf(gh_id, login2, token2);
            assert(first_match(d1.users, user_has_gh_id(gh_id)) == Some(k)) by {
                let m = first_match(d1.users, user_has_gh_id(gh_id));
                assert(user_has_gh_id(gh_id)(d1.users[k]));
                assert(m is Some);
                if m->Some_0 != k {
                    let a = m->Some_0;
                    assert(d1.users[a].gh_id == d1.users[k].gh_id);
                }
            }
            assert(d2.users[k] == r2->Ok_0);
            assert forall|j: int| 0 <= j < d2.users.len() && (#[trigger] d2.users[j]).gh_id == gh_id implies j == k by {
                if j != k {
                    assert(d2.users[j].gh_id == d2.users[k].gh_id);
                }
            }
        }
    }

    /// Revoking a live token kills it: afterwards its digest authenticates
    /// nobody and leaves the store as it is, and no listing of its owner's
    /// tokens holds it.
    pub proof fn lemma_revoked_token_is_dead(self, i: int, now: i64, listing: Seq<ApiTokenView>)
        requires
            self.wf(),
            0 <= i < self.api_tokens.len(),
            !self.api_tokens[i].revoked,
            self.revoke(self.api_tokens[i].user_id, self.api_tokens[i].id).0.is_token_listing(
                self.api_tokens[i].user_id,
                listing,
            ),
        ensures
            ({
                let t = self.api_tokens[i];
                let (d1, r) = self.revoke(t.user_id, t.id);
                &&& r is Ok
                &&& d1.authenticate(t.token, now) == (d1, Err::<ApiTokenView, ErrorView>(ErrorView::NotFound))
                &&& forall|k: int| 0 <= k < listing.len() ==> (#[trigger] listing[k]).id != t.id
            }),
    {
        let t = self.api_tokens[i];
        let pred = token_owned(t.user_id, t.id);
        crate::seqs::lemma_first_match_means(self.api_tokens, pred, 0);
        assert(pred(self.api_tokens[i]));
        let m = first_match(self.api_tokens, pred);
        assert(m == Some(i)) by {
            if m->Some_0 != i {
                assert(self.api_tokens[m->Some_0].id == self.api_tokens[i].id);
            }
        }
        let (d1, r) = self.revoke(t.user_id, t.id);
        self.lemma_revoke_wf(t.user_id, t.id);
        assert(d1.api_tokens[i].revoked);
        assert forall|j: int| 0 <= j < d1.api_tokens.len() implies !token_live_with(t.token)(
            #[trigger] d1.api_tokens[j],
        ) by {
            if j != i && !d1.api_tokens[j].revoked && d1.api_tokens[j].token == t.token {
                assert(self.api_tokens[j] == d1.api_tokens[j]);
                assert(!self.api_tokens[i].revoked && !self.api_tokens[j].revoked);
                if i < j {
                    assert(self.api_tokens[i].token != self.api_tokens[j].token);
                } else {
                    assert(self.api_tokens[j].token != self.api_tokens[i].token);
                }
            }
        }
        crate::seqs::lemma_first_match_absent(d1.api_tokens, token_live_with(t.token), 0);
        let live = d1.api_tokens.filter(token_listed(t.user_id));
        let order = choose|order: Seq<int>| #[trigger]
            is_ranking(live.map_values(token_created()), order) && listing == order.map_values(
                |k: int| live[k],
            );
        assert forall|k: int| 0 <= k < listing.len() implies (#[trigger] listing[k]).id != t.id by {
            let row = live[order[k]];
            assert(listing[k] == row);
            assert(0 <= order[k] < live.len());
            d1.api_tokens.lemma_filter_pred(token_listed(t.user_id), order[k]);
            assert(live.contains(row));
            d1.api_tokens.lemma_filter_contains_rev(token_listed(t.user_id), row);
            assert(d1.api_tokens.contains(row) && token_listed(t.user_id)(row));
            let j = choose|j: int| 0 <= j < d1.api_tokens.len() && d1.api_tokens[j] == row;
            if row.id == t.id {
                if j != i {
                    if i < j {
                        assert(d1.api_tokens[i].id != d1.api_tokens[j].id);
                    } else {
                        assert(d1.api_tokens[j].id != d1.api_tokens[i].id);
                    }
                }
            }
        }
    }

    /// Committing the same owner, name and version twice: the second commit
    /// succeeds whenever the first did, adds no row, and leaves exactly one
    /// plugin with that owner and name, which carries the second commit's
    /// description and display name, and exactly one version of it with that
    /// version string.
    pub proof fn lemma_commit_release_twice(
        self,
        p1: NewPluginView,
        p2: NewPluginView,
        num: Seq<char>,
        now1: i64,
        now2: i64,
    )
        requires
            self.wf(),
            p1.user_id == p2.user_id,
            p1.name == p2.name,
        ensures
            ({
                let (d1, r1) = self.commit_release(p1, num, now1);
                let (d2, r2) = d1.commit_release(p2, num, now2);
                r1 matches Ok(c1) ==> {
                    &&& r2 matches Ok(c2)
                    &&& r2->Ok_0.0.id == c1.0.id
                    &&& r2->Ok_0.0.description == p2.description
                    &&& r2->Ok_0.0.display_name == p2.display_name
                    &&& r2->Ok_0.1.id == c1.1.id
                    &&& d2.plugins.len() == d1.plugins.len()
                    &&& d2.versions.len() == d1.versions.len()
                    &&& exists|i: int|
                        0 <= i < d2.plugins.len() && #[trigger] d2.plugins[i] == r2->Ok_0.0
                            && forall|j: int|
                            0 <= j < d2.plugins.len() && plugin_is(p2.user_id, p2.name)(
                                #[trigger] d2.plugins[j],
                            ) ==> j == i
                    &&& exists|i: int|
                        0 <= i < d2.versions.len() && #[trigger] d2.versions[i] == r2->Ok_0.1
                            && forall|j: int|
                            0 <= j < d2.versions.len() && version_is(c1.0.id, num)(
                                #[trigger] d2.versions[j],
                            ) ==> j == i
                }
            }),
    {
        let (d1, r1) = self.commit_release(p1, num, now1);
        self.lemma_commit_release_wf(p1, num, now1);
        if let Ok(c1) = r1 {
            let (a1, ra) = self.upsert_plugin(p1, now1);
            self.lemma_upsert_plugin_wf(p1, now1);
            let nv = NewVersionView { plugin_id: c1.0.id, num, yanked: false };
            crate::seqs::lemma_first_match_means(self.plugins, plugin_is(p1.user_id, p1.name), 0);
            crate::seqs::lemma_first_match_means(a1.versions, version_is(c1.0.id, num), 0);
            crate::seqs::lemma_first_match_means(a1.plugins, plugin_has_id(c1.0.id), 0);
            let pk = match first_match(self.plugins, plugin_is(p1.user_id, p1.name)) {
                Some(i) => i,
                None => self.plugins.len() as int,
            };
            let vk = match first_match(a1.versions, version_is(c1.0.id, num)) {
                Some(i) => i,
                None => a1.versions.len() as int,
            };
            assert(d1.plugins[pk] == c1.0);
            assert(d1.versions[vk] == c1.1);
            // the second commit meets the rows the first one left
            crate::seqs::lemma_first_match_means(d1.users, user_has_id(p2.user_id), 0);
            crate::seqs::lemma_first_match_means(self.users, user_has_id(p1.user_id), 0);
            crate::seqs::lemma_first_match_means(d1.plugins, plugin_is(p2.user_id, p2.name), 0);
            assert(first_match(d1.plugins, plugin_is(p2.user_id, p2.name)) == Some(pk)) by {
                let m = first_match(d1.plugins, plugin_is(p2.user_id, p2.name));
                assert(plugin_is(p2.user_id, p2.name)(d1.plugins[pk]));
                if m->Some_0 != pk {
                    let a = m->Some_0;
                    assert(d1.plugins[a].name == d1.plugins[pk].name);
                }
            }
            let (b1, rb) = d1.upsert_plugin(p2, now2);
            d1.lemma_upsert_plugin_wf(p2, now2);
            assert(rb is Ok);
            let row2 = rb->Ok_0;
            assert(row2.id == c1.0.id);
            assert(b1.plugins[pk] == row2);
            crate::seqs::lemma_first_match_means(b1.plugins, plugin_has_id(row2.id), 0);
            assert(plugin_has_id(row2.id)(b1.plugins[pk]));
            crate::seqs::lemma_first_match_means(b1.versions, version_is(row2.id, num), 0);
            assert(version_is(row2.id, num)(b1.versions[vk]));
            assert(first_match(b1.versions, version_is(row2.id, num)) == Some(vk)) by {
                let m = first_match(b1.versions, version_is(row2.id, num));
                if m->Some_0 != vk {
                    let a = m->Some_0;
                    assert(b1.versions[a].num == b1.versions[vk].num);
                }
            }
            let (d2, r2) = d1.commit_release(p2, num, now2);
            d1.lemma_commit_release_wf(p2, num, now2);
            assert(r2 is Ok);
            assert(d2.plugins[pk] == r2->Ok_0.0);
            assert(d2.versions[vk] == r2->Ok_0.1);
            assert forall|j: int|
                0 <= j < d2.plugins.len() && plugin_is(p2.user_id, p2.name)(
                    #[trigger] d2.plugins[j],
                ) implies j == pk by {
                if j != pk {
                    assert(d2.plugins[j].name == d2.plugins[pk].name);
                }
            }
            assert forall|j: int|
                0 <= j < d2.versions.len() && version_is(c1.0.id, num)(
                    #[trigger] d2.versions[j],
                ) implies j == vk by {
                if j != vk {
                    assert(d2.versions[j].num == d2.versions[vk].num);
                }
            }
        }
    }
}


/// A committed release as contracts see it.
pub open spec fn release_view(r: Result<(Plugin, Version), Error>) -> Result<
    (PluginView, VersionView),
    ErrorView,
> {
    match r {
        Ok(c) => Ok((c.0@, c.1@)),
        Err(e) => Err(e@),
    }
}

/// Upserts a plugin and one version of it, both or neither.
pub fn commit_release(db: &mut Database, plugin: &NewPlugin, num: &str, now: i64) -> (r: Result<
    (Plugin, Version),
    Error,
>)
    requires
        old(db)@.wf(),
    ensures
        final(db)@.wf(),
        final(db)@ == old(db)@.commit_release(plugin@, num@, now).0,
        release_view(r) == old(db)@.commit_release(plugin@, num@, now).1,
{
    let ghost d0 = db@;
    let ghost d1 = d0.upsert_plugin(plugin@, now).0;
    proof {
        d0.lemma_commit_release_wf(plugin@, num@, now);
        d0.lemma_upsert_plugin_wf(plugin@, now);
        crate::seqs::lemma_first_match_means(d0.plugins, plugin_is(plugin.user_id, plugin.name@), 0);
    }
    if db.user_index_by_id(plugin.user_id).is_none() {
        return Err(Error::NotFound);
    }
    let pid = match db.plugin_index(plugin.user_id, plugin.name) {
        Some(i) => db.plugins[i].id,
        None => {
            if db.next_plugin_id == i32::MAX {
                return Err(Error::Internal);
            }
            db.next_plugin_id
        },
    };
    proof {
        let k = match first_match(d0.plugins, plugin_is(plugin.user_id, plugin.name@)) {
            Some(i) => i,
            None => d0.plugins.len() as int,
        };
        assert(d1.plugins[k].id == pid);
        crate::seqs::lemma_first_match_means(d1.plugins, plugin_has_id(pid), 0);
        assert(plugin_has_id(pid)(d1.plugins[k]));
        assert(first_match(d1.plugins, plugin_has_id(pid)) is Some);
        assert(d1.versions == d0.versions);
    }
    if db.version_index(pid, num).is_none() && db.next_version_id == i32::MAX {
        return Err(Error::Internal);
    }
    let row = match plugin.create_or_update(db, now) {
        Ok(row) => row,
        Err(e) => {
            return Err(e);
        },
    };
    let version = match NewVersion::new(row.id, num).create_or_update(db, now) {
        Ok(v) => v,
        Err(e) => {
            // the checks above leave this upsert no way to fail
            assert(false);
            return Err(e);
        },
    };
    Ok((row, version))
}


/// Whether there is an account with the given id.
pub fn user_exists(db: &Database, id: i32) -> (r: bool)
    ensures
        r == first_match(db@.users, user_has_id(id)) is Some,
{
    db.user_index_by_id(id).is_some()
}

/// Whether a plugin has a version that has not been yanked.
pub fn has_live_version(db: &Database, plugin_id: i32) -> (r: bool)
    ensures
        r == first_match(db@.versions, version_live_of(plugin_id)) is Some,
{
    let mut i: usize = 0;
    while i < db.versions.len()
        invariant
            i <= db.versions.len(),
            forall|j: int|
                0 <= j < i ==> !(db.versions@[j].plugin_id == plugin_id && !db.versions@[j].yanked),
        decreases db.versions.len() - i,
    {
        if db.versions[i].plugin_id == plugin_id && !db.versions[i].yanked {
            proof {
                lemma_first_match_found(db@.versions, version_live_of(plugin_id), 0, i as int);
            }
            return true;
        }
        i += 1;
    }
    proof {
        lemma_first_match_absent(db@.versions, version_live_of(plugin_id), 0);
    }
    false
}


/// Whether the ids of a table are positive, below `next` and all different.
pub open spec fn ids_fit(ids: Seq<i32>, next: i32) -> bool {
    &&& next >= 1
    &&& forall|i: int| 0 <= i < ids.len() ==> 1 <= #[trigger] ids[i] < next
    &&& forall|i: int, j: int| 0 <= i < j < ids.len() ==> #[trigger] ids[i] != #[trigger] ids[j]
}

/// The id after the greatest of a table's ids, 1 for an empty table.
pub open spec fn next_after(ids: Seq<i32>) -> int
    decreases ids.len(),
{
    if ids.len() == 0 {
        1
    } else {
        let rest = next_after(ids.drop_last());
        if ids.last() + 1 > rest {
            ids.last() + 1
        } else {
            rest
        }
    }
}

/// Checks the ids of a table and finds the next free one. `None` where an
/// id is not positive, is the greatest an id can be, or occurs twice.
fn next_free(ids: &Vec<i32>) -> (r: Option<i32>)
    ensures
        match r {
            Some(n) => ids_fit(ids@, n) && n == next_after(ids@),
            None => forall|n: i32| !ids_fit(ids@, n),
        },
{
    let mut next: i32 = 1;
    let mut i: usize = 0;
    assert(ids@.subrange(0, 0) =~= Seq::<i32>::empty());
    while i < ids.len()
        invariant
            i <= ids.len(),
            ids_fit(ids@.subrange(0, i as int), next),
            next == next_after(ids@.subrange(0, i as int)),
        decreases ids.len() - i,
    {
        let id = ids[i];
        if id < 1 || id == i32::MAX {
            assert forall|n: i32| !ids_fit(ids@, n) by {
                if ids_fit(ids@, n) {
                    assert(1 <= ids@[i as int] < n);
                }
            }
            return None;
        }
        let mut k: usize = 0;
        while k < i
            invariant
                k <= i,
                i < ids.len(),
                id == ids@[i as int],
                forall|j: int| 0 <= j < k ==> ids@[j] != id,
            decreases i - k,
        {
            if ids[k] == id {
                assert forall|n: i32| !ids_fit(ids@, n) by {
                    if ids_fit(ids@, n) {
                        assert(ids@[k as int] != ids@[i as int]);
                    }
                }
                return None;
            }
            k += 1;
        }
        proof {
            let t = ids@.subrange(0, i + 1);
            assert(t.drop_last() =~= ids@.subrange(0, i as int));
            assert(t.last() == id);
        }
        if id >= next {
            next = id + 1;
        }
        assert(ids_fit(ids@.subrange(0, i + 1), next)) by {
            let t = ids@.subrange(0, i + 1);
            let u = ids@.subrange(0, i as int);
            assert forall|a: int| 0 <= a < t.len() implies 1 <= #[trigger] t[a] < next by {
                if a < i {
                    assert(t[a] == u[a]);
                }
            }
            assert forall|a: int, b: int| 0 <= a < b < t.len() implies #[trigger] t[a]
                != #[trigger] t[b] by {
                if b < i {
                    assert(t[a] == u[a] && t[b] == u[b]);
                }
            }
        }
        i += 1;
    }
    assert(ids@.subrange(0, i as int) =~= ids@);
    Some(next)
}

/// The ids of the accounts of a table.
pub open spec fn user_ids_of(rows: Seq<UserView>) -> Seq<i32> {
    rows.map_values(|u: UserView| u.id)
}

/// The ids of the tokens of a table.
pub open spec fn token_ids_of(rows: Seq<ApiTokenView>) -> Seq<i32> {
    rows.map_values(|t: ApiTokenView| t.id)
}

/// The ids of the plugins of a table.
pub open spec fn plugin_ids_of(rows: Seq<PluginView>) -> Seq<i32> {
    rows.map_values(|p: PluginView| p.id)
}

/// The ids of the versions of a table.
pub open spec fn version_ids_of(rows: Seq<VersionView>) -> Seq<i32> {
    rows.map_values(|v: VersionView| v.id)
}

/// Whether a predicate on two rows holds of no two rows of a table.
pub open spec fn no_two<T>(rows: Seq<T>, clash: spec_fn(T, T) -> bool) -> bool {
    forall|i: int, j: int| 0 <= i < j < rows.len() ==> !clash(#[trigger] rows[i], #[trigger] rows[j])
}

/// Two accounts with one provider id.
pub open spec fn users_clash() -> spec_fn(UserView, UserView) -> bool {
    |a: UserView, b: UserView| a.gh_id == b.gh_id
}

/// Two live tokens with one digest.
pub open spec fn tokens_clash() -> spec_fn(ApiTokenView, ApiTokenView) -> bool {
    |a: ApiTokenView, b: ApiTokenView| !a.revoked && !b.revoked && a.token == b.token
}

/// Two plugins with one owner and name.
pub open spec fn plugins_clash() -> spec_fn(PluginView, PluginView) -> bool {
    |a: PluginView, b: PluginView| a.user_id == b.user_id && a.name == b.name
}

/// Two versions with one plugin and version string.
pub open spec fn versions_clash() -> spec_fn(VersionView, VersionView) -> bool {
    |a: VersionView, b: VersionView| a.plugin_id == b.plugin_id && a.num == b.num
}

/// The rows of tables that make a well-formed store: ids that fit, no two
/// rows with one natural key, and every row belonging to a row that is there.
pub open spec fn restorable(
    users: Seq<UserView>,
    api_tokens: Seq<ApiTokenView>,
    plugins: Seq<PluginView>,
    versions: Seq<VersionView>,
) -> bool {
    &&& exists|n: i32| #[trigger] ids_fit(user_ids_of(users), n)
    &&& exists|n: i32| #[trigger] ids_fit(token_ids_of(api_tokens), n)
    &&& exists|n: i32| #[trigger] ids_fit(plugin_ids_of(plugins), n)
    &&& exists|n: i32| #[trigger] ids_fit(version_ids_of(versions), n)
    &&& no_two(users, users_clash())
    &&& no_two(api_tokens, tokens_clash())
    &&& no_two(plugins, plugins_clash())
    &&& no_two(versions, versions_clash())
    &&& all_listed(token_owners_of(api_tokens), user_ids_of(users))
    &&& all_listed(plugin_owners_of(plugins), user_ids_of(users))
    &&& all_listed(version_parents_of(versions), plugin_ids_of(plugins))
}

/// The ids of the accounts that the tokens of a table belong to.
pub open spec fn token_owners_of(rows: Seq<ApiTokenView>) -> Seq<i32> {
    rows.map_values(|t: ApiTokenView| t.user_id)
}

/// The ids of the accounts that the plugins of a table belong to.
pub open spec fn plugin_owners_of(rows: Seq<PluginView>) -> Seq<i32> {
    rows.map_values(|p: PluginView| p.user_id)
}

/// The ids of the plugins that the versions of a table belong to.
pub open spec fn version_parents_of(rows: Seq<VersionView>) -> Seq<i32> {
    rows.map_values(|v: VersionView| v.plugin_id)
}

/// Whether every id of `wanted` is among `ids`.
pub open spec fn all_listed(wanted: Seq<i32>, ids: Seq<i32>) -> bool {
    forall|i: int| 0 <= i < wanted.len() ==> ids.contains(#[trigger] wanted[i])
}

/// An account's id is among the ids of a table exactly when the table holds
/// the account.
pub proof fn lemma_user_listed(users: Seq<UserView>, id: i32)
    ensures
        user_ids_of(users).contains(id) == (first_match(users, user_has_id(id)) is Some),
{
    crate::seqs::lemma_first_match_means(users, user_has_id(id), 0);
    if user_ids_of(users).contains(id) {
        let i = choose|i: int| 0 <= i < user_ids_of(users).len() && user_ids_of(users)[i] == id;
        crate::seqs::lemma_first_match_exists(users, user_has_id(id), i);
    }
    if first_match(users, user_has_id(id)) is Some {
        let i = first_match(users, user_has_id(id))->Some_0;
        assert(user_ids_of(users)[i] == id);
    }
}

/// A plugin's id is among the ids of a table exactly when the table holds
/// the plugin.
pub proof fn lemma_plugin_listed(plugins: Seq<PluginView>, id: i32)
    ensures
        plugin_ids_of(plugins).contains(id) == (first_match(plugins, plugin_has_id(id)) is Some),
{
    crate::seqs::lemma_first_match_means(plugins, plugin_has_id(id), 0);
    if plugin_ids_of(plugins).contains(id) {
        let i = choose|i: int|
            0 <= i < plugin_ids_of(plugins).len() && plugin_ids_of(plugins)[i] == id;
        crate::seqs::lemma_first_match_exists(plugins, plugin_has_id(id), i);
    }
    if first_match(plugins, plugin_has_id(id)) is Some {
        let i = first_match(plugins, plugin_has_id(id))->Some_0;
        assert(plugin_ids_of(plugins)[i] == id);
    }
}

fn listed(ids: &Vec<i32>, id: i32) -> (r: bool)
    ensures
        r == ids@.contains(id),
{
    let mut i: usize = 0;
    while i < ids.len()
        invariant
            i <= ids.len(),
            forall|j: int| 0 <= j < i ==> ids@[j] != id,
        decreases ids.len() - i,
    {
        if ids[i] == id {
            return true;
        }
        i += 1;
    }
    false
}

fn all_are_listed(wanted: &Vec<i32>, ids: &Vec<i32>) -> (r: bool)
    ensures
        r == all_listed(wanted@, ids@),
{
    let mut i: usize = 0;
    while i < wanted.len()
        invariant
            i <= wanted.len(),
            forall|j: int| 0 <= j < i ==> ids@.contains(#[trigger] wanted@[j]),
        decreases wanted.len() - i,
    {
        if !listed(ids, wanted[i]) {
            return false;
        }
        i += 1;
    }
    true
}

fn token_owners(rows: &Vec<ApiToken>) -> (r: Vec<i32>)
    ensures
        r@ == token_owners_of(rows@.map_values(|t: ApiToken| t@)),
{
    let mut out: Vec<i32> = Vec::new();
    let mut i: usize = 0;
    while i < rows.len()
        invariant
            i <= rows.len(),
            out@.len() == i,
            forall|k: int| 0 <= k < i ==> out@[k] == rows@[k].user_id,
        decreases rows.len() - i,
    {
        out.push(rows[i].user_id);
        i += 1;
    }
    assert(out@ =~= token_owners_of(rows@.map_values(|t: ApiToken| t@)));
    out
}

fn plugin_owners(rows: &Vec<Plugin>) -> (r: Vec<i32>)
    ensures
        r@ == plugin_owners_of(rows@.map_values(|p: Plugin| p@)),
{
    let mut out: Vec<i32> = Vec::new();
    let mut i: usize = 0;
    while i < rows.len()
        invariant
            i <= rows.len(),
            out@.len() == i,
            forall|k: int| 0 <= k < i ==> out@[k] == rows@[k].user_id,
        decreases rows.len() - i,
    {
        out.push(rows[i].user_id);
        i += 1;
    }
    assert(out@ =~= plugin_owners_of(rows@.map_values(|p: Plugin| p@)));
    out
}

fn version_parents(rows: &Vec<Version>) -> (r: Vec<i32>)
    ensures
        r@ == version_parents_of(rows@.map_values(|v: Version| v@)),
{
    let mut out: Vec<i32> = Vec::new();
    let mut i: usize = 0;
    while i < rows.len()
        invariant
            i <= rows.len(),
            out@.len() == i,
            forall|k: int| 0 <= k < i ==> out@[k] == rows@[k].plugin_id,
        decreases rows.len() - i,
    {
        out.push(rows[i].plugin_id);
        i += 1;
    }
    assert(out@ =~= version_parents_of(rows@.map_values(|v: Version| v@)));
    out
}

fn users_distinct(rows: &Vec<User>) -> (r: bool)
    ensures
        r == no_two(rows@.map_values(|u: User| u@), users_clash()),
{
    let ghost v = rows@.map_values(|u: User| u@);
    let mut j: usize = 0;
    while j < rows.len()
        invariant
            j <= rows.len(),
            v == rows@.map_values(|u: User| u@),
            forall|a: int, b: int| 0 <= a < b < j ==> !users_clash()(#[trigger] v[a], #[trigger] v[b]),
        decreases rows.len() - j,
    {
        let mut i: usize = 0;
        while i < j
            invariant
                i <= j,
                j < rows.len(),
                v == rows@.map_values(|u: User| u@),
                forall|a: int| 0 <= a < i ==> !users_clash()(#[trigger] v[a], v[j as int]),
            decreases j - i,
        {
            if rows[i].gh_id == rows[j].gh_id {
                assert(users_clash()(v[i as int], v[j as int]));
                return false;
            }
            i += 1;
        }
        j += 1;
    }
    true
}

fn tokens_distinct(rows: &Vec<ApiToken>) -> (r: bool)
    ensures
        r == no_two(rows@.map_values(|t: ApiToken| t@), tokens_clash()),
{
    let ghost v = rows@.map_values(|t: ApiToken| t@);
    let mut j: usize = 0;
    while j < rows.len()
        invariant
            j <= rows.len(),
            v == rows@.map_values(|t: ApiToken| t@),
            forall|a: int, b: int| 0 <= a < b < j ==> !tokens_clash()(#[trigger] v[a], #[trigger] v[b]),
        decreases rows.len() - j,
    {
        let mut i: usize = 0;
        while i < j
            invariant
                i <= j,
                j < rows.len(),
                v == rows@.map_values(|t: ApiToken| t@),
                forall|a: int| 0 <= a < i ==> !tokens_clash()(#[trigger] v[a], v[j as int]),
            decreases j - i,
        {
            if !rows[i].revoked && !rows[j].revoked && same_bytes(
                rows[i].token.as_slice(),
                rows[j].token.as_slice(),
            ) {
                assert(tokens_clash()(v[i as int], v[j as int]));
                return false;
            }
            i += 1;
        }
        j += 1;
    }
    true
}

fn plugins_distinct(rows: &Vec<Plugin>) -> (r: bool)
    ensures
        r == no_two(rows@.map_values(|p: Plugin| p@), plugins_clash()),
{
    let ghost v = rows@.map_values(|p: Plugin| p@);
    let mut j: usize = 0;
    while j < rows.len()
        invariant
            j <= rows.len(),
            v == rows@.map_values(|p: Plugin| p@),
            forall|a: int, b: int| 0 <= a < b < j ==> !plugins_clash()(#[trigger] v[a], #[trigger] v[b]),
        decreases rows.len() - j,
    {
        let mut i: usize = 0;
        while i < j
            invariant
                i <= j,
                j < rows.len(),
                v == rows@.map_values(|p: Plugin| p@),
                forall|a: int| 0 <= a < i ==> !plugins_clash()(#[trigger] v[a], v[j as int]),
            decreases j - i,
        {
            if rows[i].user_id == rows[j].user_id && same_text(
                rows[i].name.as_str(),
                rows[j].name.as_str(),
            ) {
                assert(plugins_clash()(v[i as int], v[j as int]));
                return false;
            }
            i += 1;
        }
        j += 1;
    }
    true
}

fn versions_distinct(rows: &Vec<Version>) -> (r: bool)
    ensures
        r == no_two(rows@.map_values(|x: Version| x@), versions_clash()),
{
    let ghost v = rows@.map_values(|x: Version| x@);
    let mut j: usize = 0;
    while j < rows.len()
        invariant
            j <= rows.len(),
            v == rows@.map_values(|x: Version| x@),
            forall|a: int, b: int| 0 <= a < b < j ==> !versions_clash()(#[trigger] v[a], #[trigger] v[b]),
        decreases rows.len() - j,
    {
        let mut i: usize = 0;
        while i < j
            invariant
                i <= j,
                j < rows.len(),
                v == rows@.map_values(|x: Version| x@),
                forall|a: int| 0 <= a < i ==> !versions_clash()(#[trigger] v[a], v[j as int]),
            decreases j - i,
        {
            if rows[i].plugin_id == rows[j].plugin_id && same_text(
                rows[i].num.as_str(),
                rows[j].num.as_str(),
            ) {
                assert(versions_clash()(v[i as int], v[j as int]));
                return false;
            }
            i += 1;
        }
        j += 1;
    }
    true
}

fn user_ids(rows: &Vec<User>) -> (r: Vec<i32>)
    ensures
        r@ == user_ids_of(rows@.map_values(|u: User| u@)),
{
    let mut out: Vec<i32> = Vec::new();
    let mut i: usize = 0;
    while i < rows.len()
        invariant
            i <= rows.len(),
            out@.len() == i,
            forall|k: int| 0 <= k < i ==> out@[k] == rows@[k].id,
        decreases rows.len() - i,
    {
        out.push(rows[i].id);
        i += 1;
    }
    assert(out@ =~= user_ids_of(rows@.map_values(|u: User| u@)));
    out
}

fn token_ids(rows: &Vec<ApiToken>) -> (r: Vec<i32>)
    ensures
        r@ == token_ids_of(rows@.map_values(|t: ApiToken| t@)),
{
    let mut out: Vec<i32> = Vec::new();
    let mut i: usize = 0;
    while i < rows.len()
        invariant
            i <= rows.len(),
            out@.len() == i,
            forall|k: int| 0 <= k < i ==> out@[k] == rows@[k].id,
        decreases rows.len() - i,
    {
        out.push(rows[i].id);
        i += 1;
    }
    assert(out@ =~= token_ids_of(rows@.map_values(|t: ApiToken| t@)));
    out
}

fn plugin_ids(rows: &Vec<Plugin>) -> (r: Vec<i32>)
    ensures
        r@ == plugin_ids_of(rows@.map_values(|p: Plugin| p@)),
{
    let mut out: Vec<i32> = Vec::new();
    let mut i: usize = 0;
    while i < rows.len()
        invariant
            i <= rows.len(),
            out@.len() == i,
            forall|k: int| 0 <= k < i ==> out@[k] == rows@[k].id,
        decreases rows.len() - i,
    {
        out.push(rows[i].id);
        i += 1;
    }
    assert(out@ =~= plugin_ids_of(rows@.map_values(|p: Plugin| p@)));
    out
}

fn version_ids(rows: &Vec<Version>) -> (r: Vec<i32>)
    ensures
        r@ == version_ids_of(rows@.map_values(|v: Version| v@)),
{
    let mut out: Vec<i32> = Vec::new();
    let mut i: usize = 0;
    while i < rows.len()
        invariant
            i <= rows.len(),
            out@.len() == i,
            forall|k: int| 0 <= k < i ==> out@[k] == rows@[k].id,
        decreases rows.len() - i,
    {
        out.push(rows[i].id);
        i += 1;
    }
    assert(out@ =~= version_ids_of(rows@.map_values(|v: Version| v@)));
    out
}

impl Database {
    /// Makes a store of rows that were kept elsewhere. `None` where the rows
    /// make no well-formed store: an id that is not positive or is the
    /// greatest there is, two rows with one id or one natural key, or a row
    /// that belongs to none. The next free id of each table is the one after
    /// its greatest.
    pub fn restore(
        users: Vec<User>,
        api_tokens: Vec<ApiToken>,
        plugins: Vec<Plugin>,
        versions: Vec<Version>,
    ) -> (r: Option<Database>)
        ensures
            match r {
                Some(db) => {
                    &&& db@.wf()
                    &&& db@.users == users@.map_values(|u: User| u@)
                    &&& db@.api_tokens == api_tokens@.map_values(|t: ApiToken| t@)
                    &&& db@.plugins == plugins@.map_values(|p: Plugin| p@)
                    &&& db@.versions == versions@.map_values(|v: Version| v@)
                    &&& db@.next_user_id == next_after(user_ids_of(db@.users))
                    &&& db@.next_token_id == next_after(token_ids_of(db@.api_tokens))
                    &&& db@.next_plugin_id == next_after(plugin_ids_of(db@.plugins))
                    &&& db@.next_version_id == next_after(version_ids_of(db@.versions))
                },
                None => !restorable(
                    users@.map_values(|u: User| u@),
                    api_tokens@.map_values(|t: ApiToken| t@),
                    plugins@.map_values(|p: Plugin| p@),
                    versions@.map_values(|v: Version| v@),
                ),
            },
    {
        let ghost uv = users@.map_values(|u: User| u@);
        let ghost tv = api_tokens@.map_values(|t: ApiToken| t@);
        let ghost pv = plugins@.map_values(|p: Plugin| p@);
        let ghost vv = versions@.map_values(|v: Version| v@);
        let uids = user_ids(&users);
        let pids = plugin_ids(&plugins);
        if !(all_are_listed(&token_owners(&api_tokens), &uids) && all_are_listed(
            &plugin_owners(&plugins),
            &uids,
        ) && all_are_listed(&version_parents(&versions), &pids)) {
            return None;
        }
        let next_user_id = match next_free(&uids) {
            Some(n) => n,
            None => {
                return None;
            },
        };
        let next_token_id = match next_free(&token_ids(&api_tokens)) {
            Some(n) => n,
            None => {
                return None;
            },
        };
        let next_plugin_id = match next_free(&pids) {
            Some(n) => n,
            None => {
                return None;
            },
        };
        let next_version_id = match next_free(&version_ids(&versions)) {
            Some(n) => n,
            None => {
                return None;
            },
        };
        if !(users_distinct(&users) && tokens_distinct(&api_tokens) && plugins_distinct(&plugins)
            && versions_distinct(&versions)) {
            return None;
        }
        let db = Database {
            users,
            api_tokens,
            plugins,
            versions,
            next_user_id,
            next_token_id,
            next_plugin_id,
            next_version_id,
        };
        proof {
            let d = db@;
            let ui = user_ids_of(uv);
            let ti = token_ids_of(tv);
            let pi = plugin_ids_of(pv);
            let vi = version_ids_of(vv);
            assert forall|i: int| 0 <= i < d.api_tokens.len() implies first_match(
                d.users,
                user_has_id((#[trigger] d.api_tokens[i]).user_id),
            ) is Some by {
                assert(token_owners_of(tv)[i] == d.api_tokens[i].user_id);
                lemma_user_listed(uv, d.api_tokens[i].user_id);
            }
            assert forall|i: int| 0 <= i < d.plugins.len() implies first_match(
                d.users,
                user_has_id((#[trigger] d.plugins[i]).user_id),
            ) is Some by {
                assert(plugin_owners_of(pv)[i] == d.plugins[i].user_id);
                lemma_user_listed(uv, d.plugins[i].user_id);
            }
            assert forall|i: int| 0 <= i < d.versions.len() implies first_match(
                d.plugins,
                plugin_has_id((#[trigger] d.versions[i]).plugin_id),
            ) is Some by {
                assert(version_parents_of(vv)[i] == d.versions[i].plugin_id);
                lemma_plugin_listed(pv, d.versions[i].plugin_id);
            }
            assert forall|i: int| 0 <= i < d.users.len() implies 1 <= (#[trigger] d.users[i]).id
                < d.next_user_id by {
                assert(ui[i] == d.users[i].id);
            }
            assert forall|i: int| 0 <= i < d.api_tokens.len() implies 1 <= (
            #[trigger] d.api_tokens[i]).id < d.next_token_id by {
                assert(ti[i] == d.api_tokens[i].id);
            }
            assert forall|i: int| 0 <= i < d.plugins.len() implies 1 <= (#[trigger] d.plugins[i]).id
                < d.next_plugin_id by {
                assert(pi[i] == d.plugins[i].id);
            }
            assert forall|i: int| 0 <= i < d.versions.len() implies 1 <= (
            #[trigger] d.versions[i]).id < d.next_version_id by {
                assert(vi[i] == d.versions[i].id);
            }
            assert forall|i: int, j: int| 0 <= i < j < d.users.len() implies (
            #[trigger] d.users[i]).id != (#[trigger] d.users[j]).id && d.users[i].gh_id
                != d.users[j].gh_id by {
                assert(ui[i] != ui[j]);
                assert(!users_clash()(uv[i], uv[j]));
            }
            assert forall|i: int, j: int| 0 <= i < j < d.api_tokens.len() implies (
            #[trigger] d.api_tokens[i]).id != (#[trigger] d.api_tokens[j]).id && !(
            !d.api_tokens[i].revoked && !d.api_tokens[j].revoked && d.api_tokens[i].token
                == d.api_tokens[j].token) by {
                assert(ti[i] != ti[j]);
                assert(!tokens_clash()(tv[i], tv[j]));
            }
            assert forall|i: int, j: int| 0 <= i < j < d.plugins.len() implies (
            #[trigger] d.plugins[i]).id != (#[trigger] d.plugins[j]).id && !(d.plugins[i].user_id
                == d.plugins[j].user_id && d.plugins[i].name == d.plugins[j].name) by {
                assert(pi[i] != pi[j]);
                assert(!plugins_clash()(pv[i], pv[j]));
            }
            assert forall|i: int, j: int| 0 <= i < j < d.versions.len() implies (
            #[trigger] d.versions[i]).id != (#[trigger] d.versions[j]).id && !(
            d.versions[i].plugin_id == d.versions[j].plugin_id && d.versions[i].num
                == d.versions[j].num) by {
                assert(vi[i] != vi[j]);
                assert(!versions_clash()(vv[i], vv[j]));
            }
        }
        Some(db)
    }
}

} // verus!
