//! The rows of the metadata store and the values the API hands out.
//!
//! Times are whole seconds since the Unix epoch, UTC.

use vstd::prelude::*;

verus! {

/// An account imported from the OAuth provider.
#[derive(Clone, Debug, PartialEq, Eq)]
pub struct User {
    pub id: i32,
    pub gh_access_token: String,
    pub gh_login: String,
    pub gh_id: i32,
}

/// A [`User`] as contracts see it.
pub struct UserView {
    pub id: i32,
    pub gh_access_token: Seq<char>,
    pub gh_login: Seq<char>,
    pub gh_id: i32,
}

impl View for User {
    type V = UserView;

    open spec fn view(&self) -> UserView {
        UserView {
            id: self.id,
            gh_access_token: self.gh_access_token@,
            gh_login: self.gh_login@,
            gh_id: self.gh_id,
        }
    }
}

impl User {
    /// A copy with the same contents.
    pub fn duplicate(&self) -> (r: User)
        ensures
            r@ == self@,
    {
        User {
            id: self.id,
            gh_access_token: self.gh_access_token.clone(),
            gh_login: self.gh_login.clone(),
            gh_id: self.gh_id,
        }
    }
}

/// A capability credential of one account. Only the digest of its secret is
/// kept.
#[derive(Clone, Debug, PartialEq, Eq)]
pub struct ApiToken {
    pub id: i32,
    pub user_id: i32,
    pub token: Vec<u8>,
    pub name: String,
    pub created_at: i64,
    pub last_used_at: Option<i64>,
    pub revoked: bool,
}

/// An [`ApiToken`] as contracts see it.
pub struct ApiTokenView {
    pub id: i32,
    pub user_id: i32,
    pub token: Seq<u8>,
    pub name: Seq<char>,
    pub created_at: i64,
    pub last_used_at: Option<i64>,
    pub revoked: bool,
}

impl View for ApiToken {
    type V = ApiTokenView;

    open spec fn view(&self) -> ApiTokenView {
        ApiTokenView {
            id: self.id,
            user_id: self.user_id,
            token: self.token@,
            name: self.name@,
            created_at: self.created_at,
            last_used_at: self.last_used_at,
            revoked: self.revoked,
        }
    }
}

impl ApiToken {
    /// A copy with the same contents.
    pub fn duplicate(&self) -> (r: ApiToken)
        ensures
            r@ == self@,
    {
        ApiToken {
            id: self.id,
            user_id: self.user_id,
            token: self.token.clone(),
            name: self.name.clone(),
            created_at: self.created_at,
            last_used_at: self.last_used_at,
            revoked: self.revoked,
        }
    }
}

/// A named package of one account.
#[derive(Clone, Debug, PartialEq, Eq)]
pub struct Plugin {
    pub id: i32,
    pub name: String,
    pub user_id: i32,
    pub updated_at: i64,
    pub created_at: i64,
    pub display_name: String,
    pub description: String,
    pub downloads: i32,
    pub repository: Option<String>,
    pub wasm: bool,
}

/// A [`Plugin`] as contracts see it.
pub struct PluginView {
    pub id: i32,
    pub name: Seq<char>,
    pub user_id: i32,
    pub updated_at: i64,
    pub created_at: i64,
    pub display_name: Seq<char>,
    pub description: Seq<char>,
    pub downloads: i32,
    pub repository: Option<Seq<char>>,
    pub wasm: bool,
}

/// An optional string as contracts see it.
pub open spec fn opt_view(s: Option<String>) -> Option<Seq<char>> {
    match s {
        Some(s) => Some(s@),
        None => None,
    }
}

/// A copy of an optional string.
pub fn duplicate_opt(s: &Option<String>) -> (r: Option<String>)
    ensures
        opt_view(r) == opt_view(*s),
{
    match s {
        Some(s) => Some(s.clone()),
        None => None,
    }
}

impl View for Plugin {
    type V = PluginView;

    open spec fn view(&self) -> PluginView {
        PluginView {
            id: self.id,
            name: self.name@,
            user_id: self.user_id,
            updated_at: self.updated_at,
            created_at: self.created_at,
            display_name: self.display_name@,
            description: self.description@,
            downloads: self.downloads,
            repository: opt_view(self.repository),
            wasm: self.wasm,
        }
    }
}

impl Plugin {
    /// A copy with the same contents.
    pub fn duplicate(&self) -> (r: Plugin)
        ensures
            r@ == self@,
    {
        Plugin {
            id: self.id,
            name: self.name.clone(),
            user_id: self.user_id,
            updated_at: self.updated_at,
            created_at: self.created_at,
            display_name: self.display_name.clone(),
            description: self.description.clone(),
            downloads: self.downloads,
            repository: duplicate_opt(&self.repository),
            wasm: self.wasm,
        }
    }
}

/// One published release of a plugin.
#[derive(Clone, Debug, PartialEq, Eq)]
pub struct Version {
    pub id: i32,
    pub plugin_id: i32,
    pub updated_at: i64,
    pub created_at: i64,
    pub num: String,
    pub yanked: bool,
    pub downloads: i32,
}

/// A [`Version`] as contracts see it.
pub struct VersionView {
    pub id: i32,
    pub plugin_id: i32,
    pub updated_at: i64,
    pub created_at: i64,
    pub num: Seq<char>,
    pub yanked: bool,
    pub downloads: i32,
}

impl View for Version {
    type V = VersionView;

    open spec fn view(&self) -> VersionView {
        VersionView {
            id: self.id,
            plugin_id: self.plugin_id,
            updated_at: self.updated_at,
            created_at: self.created_at,
            num: self.num@,
            yanked: self.yanked,
            downloads: self.downloads,
        }
    }
}

impl Version {
    /// A copy with the same contents.
    pub fn duplicate(&self) -> (r: Version)
        ensures
            r@ == self@,
    {
        Version {
            id: self.id,
            plugin_id: self.plugin_id,
            updated_at: self.updated_at,
            created_at: self.created_at,
            num: self.num.clone(),
            yanked: self.yanked,
            downloads: self.downloads,
        }
    }
}

/// The signed-in account, as the API reports it.
#[derive(Clone, Debug, PartialEq, Eq)]
pub struct MeUser {
    pub login: String,
}

/// The answer to a request for a new session.
#[derive(Clone, Debug, PartialEq, Eq)]
pub struct NewSessionResponse {
    pub url: String,
    pub state: String,
}

/// The tokens of one account.
#[derive(Clone, Debug, PartialEq, Eq)]
pub struct ApiTokenList {
    pub api_tokens: Vec<ApiToken>,
}

/// A token just issued, with its secret. The secret is handed out here and
/// nowhere else.
#[derive(Clone, Debug, PartialEq, Eq)]
pub struct EncodeApiToken {
    pub token: ApiToken,
    pub plaintext: String,
}

/// The body of a request for a new token.
#[derive(Clone, Debug, PartialEq, Eq)]
pub struct NewTokenPayload {
    pub name: String,
}

/// One plugin as the API reports it, with the version it resolved to.
#[derive(Clone, Debug, PartialEq, Eq)]
pub struct EncodePlugin {
    pub id: i32,
    pub name: String,
    pub author: String,
    pub version: String,
    pub display_name: String,
    pub description: String,
    pub downloads: i32,
    pub repository: Option<String>,
    pub updated_at_ts: i64,
    pub updated_at: String,
    pub released_at: String,
    pub wasm: bool,
}

/// An [`EncodePlugin`] as contracts see it.
pub struct EncodePluginView {
    pub id: i32,
    pub name: Seq<char>,
    pub author: Seq<char>,
    pub version: Seq<char>,
    pub display_name: Seq<char>,
    pub description: Seq<char>,
    pub downloads: i32,
    pub repository: Option<Seq<char>>,
    pub updated_at_ts: i64,
    pub updated_at: Seq<char>,
    pub released_at: Seq<char>,
    pub wasm: bool,
}

impl View for EncodePlugin {
    type V = EncodePluginView;

    open spec fn view(&self) -> EncodePluginView {
        EncodePluginView {
            id: self.id,
            name: self.name@,
            author: self.author@,
            version: self.version@,
            display_name: self.display_name@,
            description: self.description@,
            downloads: self.downloads,
            repository: opt_view(self.repository),
            updated_at_ts: self.updated_at_ts,
            updated_at: self.updated_at@,
            released_at: self.released_at@,
            wasm: self.wasm,
        }
    }
}

/// One page of a search.
#[derive(Clone, Debug, PartialEq, Eq)]
pub struct PluginList {
    pub total: usize,
    pub limit: usize,
    pub offset: usize,
    pub plugins: Vec<EncodePlugin>,
}

} // verus!
