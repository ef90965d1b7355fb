//! What the registry answers about one plugin: its metadata, its archive,
//! readme and icon, and yanking and unyanking a version.

use crate::db::{
    find_api_token, find_plugin, find_plugin_version, find_user, find_user_by_gh_login,
    live_versions, modify_plugin_version_yank, plugin_is, record_download, user_has_id,
    user_has_login, version_is, version_live_of, version_views, Database, DbView,
};
use crate::error::{Credential, Error, ErrorView};
use crate::models::{
    duplicate_opt, EncodePlugin, EncodePluginView, Plugin, PluginView, User, UserView, Version,
    VersionView,
};
use crate::seqs::first_match;
use crate::storage::{artifact_key, key_of, store_get, Artifact, ArtifactStore, ObjectView};
use crate::text::{copy_bytes, lowercase_of, same_text, to_lowercase};
use crate::time::{api_time, api_time_of};
use crate::token::digest_of;
use crate::version::{latest_index, latest_version, nums_of};
use vstd::prelude::*;

verus! {

/// The latest version of a plugin: among the versions that have not been
/// yanked and whose version string parses, the one that comes last in the
/// order of versions.
pub open spec fn latest_of(db: DbView, plugin_id: i32) -> Option<VersionView> {
    let live = db.versions.filter(version_live_of(plugin_id));
    match latest_index(nums_of(live)) {
        Some(i) => Some(live[i]),
        None => None,
    }
}

/// The version of a plugin that a request names: the latest for `latest`,
/// otherwise the one with that version string, yanked or not.
pub open spec fn requested_version(db: DbView, plugin_id: i32, version: Seq<char>) -> Option<
    VersionView,
> {
    if version == "latest"@ {
        latest_of(db, plugin_id)
    } else {
        match first_match(db.versions, version_is(plugin_id, version)) {
            Some(i) => Some(db.versions[i]),
            None => None,
        }
    }
}

/// The account, plugin and version that a request names. The plugin's name
/// is taken in lower case.
pub open spec fn located(db: DbView, author: Seq<char>, name: Seq<char>, version: Seq<char>) -> Result<
    (UserView, PluginView, VersionView),
    ErrorView,
> {
    match first_match(db.users, user_has_login(author)) {
        None => Err(ErrorView::NotFound),
        Some(ui) => match first_match(
            db.plugins,
            plugin_is(db.users[ui].id, lowercase_of(name)),
        ) {
            None => Err(ErrorView::NotFound),
            Some(pi) => match requested_version(db, db.plugins[pi].id, version) {
                None => Err(ErrorView::NotFound),
                Some(v) => Ok((db.users[ui], db.plugins[pi], v)),
            },
        },
    }
}

/// A plugin with one of its versions as the API reports it; nothing where a
/// time cannot be written.
pub open spec fn encoded(p: PluginView, author: Seq<char>, v: VersionView) -> Option<
    EncodePluginView,
> {
    match (api_time_of(p.updated_at), api_time_of(v.created_at)) {
        (Some(updated), Some(released)) => Some(
            EncodePluginView {
                id: p.id,
                name: p.name,
                author,
                version: v.num,
                display_name: p.display_name,
                description: p.description,
                downloads: p.downloads,
                repository: p.repository,
                updated_at_ts: p.updated_at,
                updated_at: updated,
                released_at: released,
                wasm: p.wasm,
            },
        ),
        _ => None,
    }
}

/// An optional report as contracts see it.
pub open spec fn opt_encoded_view(e: Option<EncodePlugin>) -> Option<EncodePluginView> {
    match e {
        Some(e) => Some(e@),
        None => None,
    }
}

/// Reports a plugin with one of its versions.
pub fn encode_plugin(p: &Plugin, author: &str, v: &Version) -> (r: Option<EncodePlugin>)
    ensures
        opt_encoded_view(r) == encoded(p@, author@, v@),
{
    let updated = api_time(p.updated_at);
    let released = api_time(v.created_at);
    match (updated, released) {
        (Some(updated_at), Some(released_at)) => Some(
            EncodePlugin {
                id: p.id,
                name: p.name.clone(),
                author: author.to_owned(),
                version: v.num.clone(),
                display_name: p.display_name.clone(),
                description: p.description.clone(),
                downloads: p.downloads,
                repository: duplicate_opt(&p.repository),
                updated_at_ts: p.updated_at,
                updated_at,
                released_at,
                wasm: p.wasm,
            },
        ),
        _ => None,
    }
}

/// An optional version as contracts see it.
pub open spec fn opt_version_view(v: Option<Version>) -> Option<VersionView> {
    match v {
        Some(v) => Some(v@),
        None => None,
    }
}

/// The latest version of a plugin.
pub fn latest(db: &Database, plugin_id: i32) -> (r: Option<Version>)
    ensures
        opt_version_view(r) == latest_of(db@, plugin_id),
{
    let live = live_versions(db, plugin_id);
    match latest_version(&live) {
        Some(i) => {
            assert(version_views(live@)[i as int] == live@[i as int]@);
            assert(latest_index(nums_of(version_views(live@))) == Some(i as int));
            Some(live[i].duplicate())
        },
        None => None,
    }
}

/// What a request names, as contracts see it.
pub open spec fn located_view(r: Result<(User, Plugin, Version), Error>) -> Result<
    (UserView, PluginView, VersionView),
    ErrorView,
> {
    match r {
        Ok(t) => Ok((t.0@, t.1@, t.2@)),
        Err(e) => Err(e@),
    }
}

/// Looks up the account, plugin and version that a request names.
pub fn locate(db: &Database, author: &str, name: &str, version: &str) -> (r: Result<
    (User, Plugin, Version),
    Error,
>)
    ensures
        located_view(r) == located(db@, author@, name@, version@),
{
    let user = match find_user_by_gh_login(db, author) {
        Ok(u) => u,
        Err(_) => {
            return Err(Error::NotFound);
        },
    };
    let name = to_lowercase(name);
    let plugin = match find_plugin(db, &user, name.as_str()) {
        Ok(p) => p,
        Err(_) => {
            return Err(Error::NotFound);
        },
    };
    let found = if same_text(version, "latest") {
        latest(db, plugin.id)
    } else {
        match find_plugin_version(db, &plugin, version) {
            Ok(v) => Some(v),
            Err(_) => None,
        }
    };
    match found {
        Some(v) => Ok((user, plugin, v)),
        None => Err(Error::NotFound),
    }
}

/// The metadata of a plugin at one version, or at its latest.
pub fn meta(db: &Database, author: &str, name: &str, version: &str) -> (r: Result<
    EncodePlugin,
    Error,
>)
    ensures
        crate::db::result_view(r) == match located(db@, author@, name@, version@) {
            Err(e) => Err::<EncodePluginView, ErrorView>(e),
            Ok((u, p, v)) => match encoded(p, u.gh_login, v) {
                Some(e) => Ok(e),
                None => Err(ErrorView::Internal),
            },
        },
{
    let (user, plugin, v) = match locate(db, author, name, version) {
        Ok(t) => t,
        Err(e) => {
            return Err(e);
        },
    };
    match encode_plugin(&plugin, user.gh_login.as_str(), &v) {
        Some(e) => Ok(e),
        None => Err(Error::Internal),
    }
}

/// A key, or why there is none, as contracts see it.
pub open spec fn key_view(r: Result<String, Error>) -> Result<Seq<char>, ErrorView> {
    match r {
        Ok(k) => Ok(k@),
        Err(e) => Err(e@),
    }
}

/// How long a link to an archive is good for, in seconds.
pub const DOWNLOAD_URL_TTL: u32 = 60;

/// What a download comes to: both counters move by one and the key of the
/// version's archive is handed out, or nothing changes.
pub open spec fn download_outcome(db: DbView, author: Seq<char>, name: Seq<char>, version: Seq<char>) -> (
    DbView,
    Result<Seq<char>, ErrorView>,
) {
    match located(db, author, name, version) {
        Err(e) => (db, Err(e)),
        Ok((u, p, v)) => {
            let (db1, r) = db.count_download(p.id, v.id);
            match r {
                Err(e) => (db1, Err(e)),
                Ok(_) => (db1, Ok(key_of(u.gh_login, p.name, v.num, Artifact::Archive))),
            }
        },
    }
}

/// Counts a download and hands out the key of the archive to fetch.
pub fn download(db: &mut Database, author: &str, name: &str, version: &str) -> (r: Result<
    String,
    Error,
>)
    requires
        old(db)@.wf(),
    ensures
        final(db)@.wf(),
        (final(db)@, key_view(r)) == download_outcome(old(db)@, author@, name@, version@),
{
    let (user, plugin, v) = match locate(db, author, name, version) {
        Ok(t) => t,
        Err(e) => {
            return Err(e);
        },
    };
    match record_download(db, plugin.id, v.id) {
        Ok(_) => {},
        Err(e) => {
            return Err(e);
        },
    }
    Ok(artifact_key(user.gh_login.as_str(), plugin.name.as_str(), v.num.as_str(), Artifact::Archive))
}

/// The object stored for a version under one of its artifacts.
pub open spec fn artifact_of(
    db: DbView,
    store: Seq<ObjectView>,
    author: Seq<char>,
    name: Seq<char>,
    version: Seq<char>,
    a: Artifact,
) -> Result<ObjectView, ErrorView> {
    match located(db, author, name, version) {
        Err(e) => Err(e),
        Ok((u, p, v)) => match store_get(store, key_of(u.gh_login, p.name, v.num, a)) {
            Some(o) => Ok(o),
            None => Err(ErrorView::NotFound),
        },
    }
}

/// The readme of a version.
pub fn readme(db: &Database, store: &ArtifactStore, author: &str, name: &str, version: &str) -> (r:
    Result<Vec<u8>, Error>)
    ensures
        match r {
            Ok(bytes) => artifact_of(db@, store@, author@, name@, version@, Artifact::Readme)
                matches Ok(o) && o.bytes == bytes@,
            Err(e) => artifact_of(db@, store@, author@, name@, version@, Artifact::Readme)
                == Err::<ObjectView, ErrorView>(e@),
        },
{
    let (user, plugin, v) = match locate(db, author, name, version) {
        Ok(t) => t,
        Err(e) => {
            return Err(e);
        },
    };
    let key = artifact_key(
        user.gh_login.as_str(),
        plugin.name.as_str(),
        v.num.as_str(),
        Artifact::Readme,
    );
    match store.get(key.as_str()) {
        Ok(o) => Ok(copy_bytes(o.bytes.as_slice())),
        Err(_) => Err(Error::NotFound),
    }
}

/// An icon with the headers it is served with.
#[derive(Clone, Debug, PartialEq, Eq)]
pub struct IconResponse {
    pub bytes: Vec<u8>,
    pub content_type: String,
    pub cache_control: String,
}

/// The content type an icon is served with: the one it was stored with, or
/// `image/*`.
pub open spec fn served_type(stored: Option<Seq<char>>) -> Seq<char> {
    match stored {
        Some(t) => t,
        None => "image/*"@,
    }
}

/// The icon of a version. It may be cached for a day.
pub fn icon(db: &Database, store: &ArtifactStore, author: &str, name: &str, version: &str) -> (r:
    Result<IconResponse, Error>)
    ensures
        match r {
            Ok(i) => artifact_of(db@, store@, author@, name@, version@, Artifact::Icon) matches Ok(
                o,
            ) && o.bytes == i.bytes@ && i.content_type@ == served_type(o.content_type)
                && i.cache_control@ == "public, max-age=86400"@,
            Err(e) => artifact_of(db@, store@, author@, name@, version@, Artifact::Icon) == Err::<
                ObjectView,
                ErrorView,
            >(e@),
        },
{
    let (user, plugin, v) = match locate(db, author, name, version) {
        Ok(t) => t,
        Err(e) => {
            return Err(e);
        },
    };
    let key = artifact_key(
        user.gh_login.as_str(),
        plugin.name.as_str(),
        v.num.as_str(),
        Artifact::Icon,
    );
    match store.get(key.as_str()) {
        Ok(o) => {
            let content_type = match &o.content_type {
                Some(t) => t.clone(),
                None => "image/*".to_owned(),
            };
            Ok(
                IconResponse {
                    bytes: copy_bytes(o.bytes.as_slice()),
                    content_type,
                    cache_control: "public, max-age=86400".to_owned(),
                },
            )
        },
        Err(_) => Err(Error::NotFound),
    }
}

/// What setting the yanked flag comes to for an account: `Forbidden` where
/// the account has no plugin of that name, `NotFound` where the plugin has
/// no such version, and in both cases nothing changes.
pub open spec fn modify_outcome(
    db: DbView,
    user_id: i32,
    name: Seq<char>,
    version: Seq<char>,
    yanked: bool,
    now: i64,
) -> (DbView, Result<(), ErrorView>) {
    match first_match(db.plugins, plugin_is(user_id, lowercase_of(name))) {
        None => (db, Err(ErrorView::Forbidden)),
        Some(pi) => {
            let (db1, r) = db.set_yanked(db.plugins[pi].id, version, yanked, now);
            match r {
                Ok(_) => (db1, Ok(())),
                Err(e) => (db1, Err(e)),
            }
        },
    }
}

/// What a yank or unyank request comes to: a token that is not live, or
/// whose account is gone, is `Unauthorized`; otherwise the account's plugin
/// is modified.
pub open spec fn yank_outcome(
    db: DbView,
    token: Seq<char>,
    name: Seq<char>,
    version: Seq<char>,
    yanked: bool,
    now: i64,
) -> (DbView, Result<(), ErrorView>) {
    let (db1, auth) = db.authenticate(digest_of(token), now);
    match auth {
        Err(_) => (db1, Err(ErrorView::Unauthorized(Credential::Bearer))),
        Ok(t) => match first_match(db1.users, user_has_id(t.user_id)) {
            None => (db1, Err(ErrorView::Unauthorized(Credential::Bearer))),
            Some(ui) => modify_outcome(db1, db1.users[ui].id, name, version, yanked, now),
        },
    }
}

/// Sets the yanked flag of one version of a plugin of `user`.
pub fn modify_yank(
    db: &mut Database,
    user: &User,
    name: &str,
    version: &str,
    yanked: bool,
    now: i64,
) -> (r: Result<(), Error>)
    requires
        old(db)@.wf(),
    ensures
        final(db)@.wf(),
        (final(db)@, crate::db::unit_result_view(r)) == modify_outcome(
            old(db)@,
            user.id,
            name@,
            version@,
            yanked,
            now,
        ),
{
    let name = to_lowercase(name);
    let plugin = match find_plugin(db, user, name.as_str()) {
        Ok(p) => p,
        Err(_) => {
            return Err(Error::Forbidden);
        },
    };
    match modify_plugin_version_yank(db, &plugin, version, yanked, now) {
        Ok(_) => Ok(()),
        Err(e) => Err(e),
    }
}

fn yank_as(db: &mut Database, token: &str, name: &str, version: &str, yanked: bool, now: i64) -> (r:
    Result<(), Error>)
    requires
        old(db)@.wf(),
    ensures
        final(db)@.wf(),
        (final(db)@, crate::db::unit_result_view(r)) == yank_outcome(
            old(db)@,
            token@,
            name@,
            version@,
            yanked,
            now,
        ),
{
    let api_token = match find_api_token(db, token, now) {
        Ok(t) => t,
        Err(_) => {
            return Err(Error::Unauthorized(Credential::Bearer));
        },
    };
    let user = match find_user(db, api_token.user_id) {
        Ok(u) => u,
        Err(_) => {
            return Err(Error::Unauthorized(Credential::Bearer));
        },
    };
    modify_yank(db, &user, name, version, yanked, now)
}

/// Yanks a version of a plugin of the bearer of `token`: it stays
/// downloadable by its version string but is no longer listed or taken for
/// the latest.
pub fn yank(db: &mut Database, token: &str, name: &str, version: &str, now: i64) -> (r: Result<
    (),
    Error,
>)
    requires
        old(db)@.wf(),
    ensures
        final(db)@.wf(),
        (final(db)@, crate::db::unit_result_view(r)) == yank_outcome(
            old(db)@,
            token@,
            name@,
            version@,
            true,
            now,
        ),
{
    yank_as(db, token, name, version, true, now)
}

/// Takes back the yanking of a version.
pub fn unyank(db: &mut Database, token: &str, name: &str, version: &str, now: i64) -> (r: Result<
    (),
    Error,
>)
    requires
        old(db)@.wf(),
    ensures
        final(db)@.wf(),
        (final(db)@, crate::db::unit_result_view(r)) == yank_outcome(
            old(db)@,
            token@,
            name@,
            version@,
            false,
            now,
        ),
{
    yank_as(db, token, name, version, false, now)
}


/// The latest version of a plugin is one of its versions, it has not been
/// yanked and its version string parses. A plugin has a latest version
/// exactly when one of its versions that were not yanked parses.
pub proof fn lemma_latest_is_live(db: DbView, plugin_id: i32)
    ensures
        match latest_of(db, plugin_id) {
            Some(v) => {
                &&& db.versions.contains(v)
                &&& v.plugin_id == plugin_id
                &&& !v.yanked
                &&& crate::version::semver_of(v.num) is Some
            },
            None => forall|i: int|
                0 <= i < db.versions.len() && (#[trigger] db.versions[i]).plugin_id == plugin_id
                    && !db.versions[i].yanked ==> crate::version::semver_of(db.versions[i].num)
                    is None,
        },
{
    let pred = version_live_of(plugin_id);
    let live = db.versions.filter(pred);
    let nums = nums_of(live);
    crate::version::lemma_latest_is_a_version(nums, nums.len() as int);
    assert forall|i: int| 0 <= i < db.versions.len() && pred(#[trigger] db.versions[i]) implies live.contains(
        db.versions[i],
    ) by {
        db.versions.lemma_filter_contains(pred, i);
    }
    match latest_index(nums) {
        Some(b) => {
            let v = live[b];
            db.versions.lemma_filter_pred(pred, b);
            assert(live.contains(v));
            db.versions.lemma_filter_contains_rev(pred, v);
            assert(nums[b] == v.num);
        },
        None => {
            assert forall|i: int|
                0 <= i < db.versions.len() && (#[trigger] db.versions[i]).plugin_id == plugin_id
                    && !db.versions[i].yanked implies crate::version::semver_of(
                db.versions[i].num,
            ) is None by {
                assert(pred(db.versions[i]));
                assert(live.contains(db.versions[i]));
                let j = choose|j: int| 0 <= j < live.len() && live[j] == db.versions[i];
                assert(nums[j] == live[j].num);
            }
        },
    }
}

/// A request for a plugin of an account that has no plugin of that name is
/// refused with `Forbidden`, whatever the version, and changes nothing.
pub proof fn lemma_modify_of_foreign_plugin_is_forbidden(
    db: DbView,
    user_id: i32,
    name: Seq<char>,
    version: Seq<char>,
    yanked: bool,
    now: i64,
)
    requires
        forall|i: int|
            0 <= i < db.plugins.len() ==> !((#[trigger] db.plugins[i]).user_id == user_id
                && db.plugins[i].name == lowercase_of(name)),
    ensures
        modify_outcome(db, user_id, name, version, yanked, now) == (
            db,
            Err::<(), ErrorView>(ErrorView::Forbidden),
        ),
{
    crate::seqs::lemma_first_match_means(db.plugins, plugin_is(user_id, lowercase_of(name)), 0);
}


/// A yanked version is never the latest: once a version of a plugin was
/// yanked, the plugin's latest version, if it has one, is another.
pub proof fn lemma_yanked_is_not_latest(db: DbView, plugin_id: i32, num: Seq<char>, now: i64)
    requires
        db.wf(),
        db.set_yanked(plugin_id, num, true, now).1 is Ok,
    ensures
        latest_of(db.set_yanked(plugin_id, num, true, now).0, plugin_id) matches Some(v) ==> v.num
            != num,
{
    let after = db.set_yanked(plugin_id, num, true, now).0;
    db.lemma_set_yanked_wf(plugin_id, num, true, now);
    crate::seqs::lemma_first_match_means(db.versions, version_is(plugin_id, num), 0);
    let i = first_match(db.versions, version_is(plugin_id, num))->Some_0;
    assert(after.versions[i].yanked && after.versions[i].num == num && after.versions[i].plugin_id
        == plugin_id);
    lemma_latest_is_live(after, plugin_id);
    if let Some(v) = latest_of(after, plugin_id) {
        if v.num == num {
            let j = choose|j: int| 0 <= j < after.versions.len() && after.versions[j] == v;
            if j < i {
                assert(after.versions[j].num != after.versions[i].num);
            } else if i < j {
                assert(after.versions[i].num != after.versions[j].num);
            }
        }
    }
}

} // verus!
