use volts::db::{
    commit_release, find_api_token, find_plugin, find_plugin_version, find_user,
    find_user_by_gh_login, has_live_version, insert_token, insert_token_with, list_tokens,
    live_versions, modify_plugin_version_yank, record_download, revoke_token, user_exists,
    Database, NewPlugin, NewUser, NewVersion,
};
use volts::error::{Credential, Error, ManifestFault, ThemeKind};
use volts::models::{ApiToken, Plugin, User, Version};
use volts::token::SecureToken;

fn alice(db: &mut Database) -> User {
    NewUser::new(7, "alice", "gho_1").create_or_update(db).unwrap()
}

#[test]
fn new_user_holds_what_it_was_given() {
    let u = NewUser::new(7, "alice", "gho_1");
    assert_eq!(u.gh_id, 7);
    assert_eq!(u.gh_login, "alice");
    assert_eq!(u.gh_access_token, "gho_1");
}

#[test]
fn upsert_same_provider_id_twice_keeps_one_row_and_its_id() {
    let mut db = Database::new();
    let first = NewUser::new(7, "alice", "gho_1").create_or_update(&mut db).unwrap();
    let other = NewUser::new(8, "bob", "gho_b").create_or_update(&mut db).unwrap();
    let second = NewUser::new(7, "alice2", "gho_2").create_or_update(&mut db).unwrap();
    assert_eq!(first.id, 1);
    assert_eq!(other.id, 2);
    assert_eq!(second.id, first.id);
    assert_eq!(second.gh_login, "alice2");
    assert_eq!(second.gh_access_token, "gho_2");
    let rows: Vec<&User> = db.users().iter().filter(|u| u.gh_id == 7).collect();
    assert_eq!(rows.len(), 1);
    assert_eq!(rows[0], &second);
    assert_eq!(db.users().len(), 2);
}

#[test]
fn find_user_by_id_and_login() {
    let mut db = Database::new();
    let a = alice(&mut db);
    assert_eq!(find_user(&db, a.id), Ok(a.clone()));
    assert_eq!(User::find(&db, a.id), Ok(a.clone()));
    assert_eq!(find_user(&db, 99), Err(Error::NotFound));
    assert_eq!(find_user_by_gh_login(&db, "alice"), Ok(a));
    assert_eq!(find_user_by_gh_login(&db, "Alice"), Err(Error::NotFound));
    assert!(user_exists(&db, 1));
    assert!(!user_exists(&db, 2));
}

#[test]
fn issued_token_authenticates_and_is_stamped() {
    let mut db = Database::new();
    let a = alice(&mut db);
    let issued = insert_token(&mut db, &a, "laptop", 100).unwrap();
    assert_eq!(issued.plaintext.len(), 32);
    assert_eq!(issued.token.id, 1);
    assert_eq!(issued.token.user_id, a.id);
    assert_eq!(issued.token.name, "laptop");
    assert_eq!(issued.token.created_at, 100);
    assert_eq!(issued.token.last_used_at, None);
    assert!(!issued.token.revoked);
    assert_eq!(issued.token.token, SecureToken::parse(&issued.plaintext).token());
    assert_eq!(issued.token.token.len(), 32);
    assert!(db.api_tokens().iter().all(|t| t.token != issued.plaintext.as_bytes()));

    let found = find_api_token(&mut db, &issued.plaintext, 250).unwrap();
    assert_eq!(found.id, issued.token.id);
    assert_eq!(found.last_used_at, Some(250));
    assert_eq!(db.api_tokens()[0].last_used_at, Some(250));
    assert_eq!(find_api_token(&mut db, "not a token", 300), Err(Error::NotFound));
    assert_eq!(db.api_tokens()[0].last_used_at, Some(250));
}

#[test]
fn revoked_token_neither_authenticates_nor_lists() {
    let mut db = Database::new();
    let a = alice(&mut db);
    let keep = insert_token_with(&mut db, &a, "keep", &SecureToken::parse("k"), 10).unwrap();
    let gone = insert_token_with(&mut db, &a, "gone", &SecureToken::parse("g"), 20).unwrap();
    assert_eq!(revoke_token(&mut db, &a, gone.token.id), Ok(()));
    assert_eq!(find_api_token(&mut db, "g", 30), Err(Error::NotFound));
    let listed = list_tokens(&db, &a).unwrap();
    assert_eq!(listed.len(), 1);
    assert_eq!(listed[0].id, keep.token.id);
    assert_eq!(ApiToken::list(&db, &a).unwrap(), listed);
    assert!(db.api_tokens().iter().any(|t| t.id == gone.token.id && t.revoked));
    assert!(find_api_token(&mut db, "k", 40).is_ok());
}

#[test]
fn revoke_of_another_accounts_token_is_not_found() {
    let mut db = Database::new();
    let a = alice(&mut db);
    let b = NewUser::new(8, "bob", "x").create_or_update(&mut db).unwrap();
    let t = insert_token_with(&mut db, &a, "t", &SecureToken::parse("s"), 1).unwrap();
    assert_eq!(revoke_token(&mut db, &b, t.token.id), Err(Error::NotFound));
    assert_eq!(revoke_token(&mut db, &a, 99), Err(Error::NotFound));
    assert!(!db.api_tokens()[0].revoked);
}

#[test]
fn tokens_list_newest_first_and_ties_in_table_order() {
    let mut db = Database::new();
    let a = alice(&mut db);
    for (name, secret, at) in [("a", "1", 5), ("b", "2", 9), ("c", "3", 5), ("d", "4", 7)] {
        insert_token_with(&mut db, &a, name, &SecureToken::parse(secret), at).unwrap();
    }
    let names: Vec<String> = list_tokens(&db, &a).unwrap().into_iter().map(|t| t.name).collect();
    assert_eq!(names, vec!["b", "d", "a", "c"]);
}

#[test]
fn token_errors() {
    let mut db = Database::new();
    let a = alice(&mut db);
    let ghost = User { id: 42, gh_access_token: String::new(), gh_login: "x".into(), gh_id: 1 };
    let s = SecureToken::parse("same");
    assert_eq!(insert_token_with(&mut db, &ghost, "t", &s, 1), Err(Error::NotFound));
    assert!(insert_token_with(&mut db, &a, "t", &s, 1).is_ok());
    assert_eq!(insert_token_with(&mut db, &a, "u", &s, 2), Err(Error::Conflict));
    assert_eq!(db.api_tokens().len(), 1);
    revoke_token(&mut db, &a, 1).unwrap();
    assert!(insert_token_with(&mut db, &a, "u", &s, 3).is_ok());
}

#[test]
fn new_plugin_and_new_version_defaults() {
    let p = NewPlugin::new("n", 3, "N", "d", Some("https://r"), true);
    assert_eq!((p.name, p.user_id, p.display_name, p.description), ("n", 3, "N", "d"));
    assert_eq!((p.downloads, p.repository, p.wasm), (0, Some("https://r"), true));
    let v = NewVersion::new(4, "1.0.0");
    assert_eq!((v.plugin_id, v.num, v.yanked), (4, "1.0.0", false));
}

#[test]
fn plugin_upsert_updates_display_fields_only() {
    let mut db = Database::new();
    let a = alice(&mut db);
    let first = NewPlugin::new("p", a.id, "P", "one", Some("repo"), true)
        .create_or_update(&mut db, 10)
        .unwrap();
    let second = NewPlugin::new("p", a.id, "Renamed", "two", None, false)
        .create_or_update(&mut db, 20)
        .unwrap();
    assert_eq!(second.id, first.id);
    assert_eq!(second.display_name, "Renamed");
    assert_eq!(second.description, "two");
    assert_eq!(second.updated_at, 20);
    assert_eq!(second.created_at, 10);
    assert_eq!(second.repository, Some("repo".to_string()));
    assert!(second.wasm);
    assert_eq!(db.plugins().len(), 1);
    assert_eq!(find_plugin(&db, &a, "p"), Ok(second));
    assert_eq!(find_plugin(&db, &a, "q"), Err(Error::NotFound));
    assert_eq!(
        NewPlugin::new("p", 99, "P", "d", None, true).create_or_update(&mut db, 1),
        Err(Error::NotFound)
    );
}

#[test]
fn version_upsert_yank_and_download_counters() {
    let mut db = Database::new();
    let a = alice(&mut db);
    let p = NewPlugin::new("p", a.id, "P", "d", None, true).create_or_update(&mut db, 1).unwrap();
    assert!(!has_live_version(&db, p.id));
    let v = NewVersion::new(p.id, "1.0.0").create_or_update(&mut db, 2).unwrap();
    assert_eq!((v.id, v.plugin_id, v.created_at, v.updated_at), (1, p.id, 2, 2));
    assert_eq!((v.yanked, v.downloads), (false, 0));
    assert!(has_live_version(&db, p.id));
    assert_eq!(NewVersion::new(99, "1.0.0").create_or_update(&mut db, 2), Err(Error::NotFound));

    let y = modify_plugin_version_yank(&mut db, &p, "1.0.0", true, 5).unwrap();
    assert!(y.yanked);
    assert_eq!(y.updated_at, 5);
    assert!(!has_live_version(&db, p.id));
    assert!(live_versions(&db, p.id).is_empty());
    assert_eq!(modify_plugin_version_yank(&mut db, &p, "9.9.9", true, 6), Err(Error::NotFound));

    let again = NewVersion::new(p.id, "1.0.0").create_or_update(&mut db, 7).unwrap();
    assert_eq!(again.id, v.id);
    assert!(again.yanked);
    assert_eq!(again.updated_at, 7);
    assert_eq!(db.versions().len(), 1);
    assert_eq!(find_plugin_version(&db, &p, "1.0.0"), Ok(again));

    assert_eq!(record_download(&mut db, p.id, v.id), Ok(()));
    assert_eq!(record_download(&mut db, p.id, v.id), Ok(()));
    assert_eq!(db.plugins()[0].downloads, 2);
    assert_eq!(db.versions()[0].downloads, 2);
    assert_eq!(record_download(&mut db, p.id, 99), Err(Error::NotFound));
    assert_eq!(db.plugins()[0].downloads, 2);
}

#[test]
fn committing_a_release_twice_keeps_one_plugin_and_one_version() {
    let mut db = Database::new();
    let a = alice(&mut db);
    let one = NewPlugin::new("p", a.id, "P", "first words", None, true);
    let two = NewPlugin::new("p", a.id, "P", "second words", None, true);
    let (p1, v1) = commit_release(&mut db, &one, "1.0.0", 10).unwrap();
    let (p2, v2) = commit_release(&mut db, &two, "1.0.0", 20).unwrap();
    assert_eq!(p2.id, p1.id);
    assert_eq!(v2.id, v1.id);
    assert_eq!(db.plugins().len(), 1);
    assert_eq!(db.versions().len(), 1);
    assert_eq!(db.plugins()[0].description, "second words");
    assert_eq!(db.versions()[0].num, "1.0.0");
    let before = db.plugins().clone();
    let nobody = NewPlugin::new("q", 99, "Q", "d", None, true);
    assert_eq!(commit_release(&mut db, &nobody, "1.0.0", 30), Err(Error::NotFound));
    assert_eq!(db.plugins(), &before);
}

fn token_row(id: i32, user_id: i32, digest: &[u8], revoked: bool) -> ApiToken {
    ApiToken {
        id,
        user_id,
        token: digest.to_vec(),
        name: "t".to_string(),
        created_at: 0,
        last_used_at: None,
        revoked,
    }
}

fn user_row(id: i32, gh_id: i32) -> User {
    User { id, gh_access_token: "t".to_string(), gh_login: format!("u{id}"), gh_id }
}

fn plugin_row(id: i32, user_id: i32, name: &str) -> Plugin {
    Plugin {
        id,
        name: name.to_string(),
        user_id,
        updated_at: 0,
        created_at: 0,
        display_name: String::new(),
        description: String::new(),
        downloads: 0,
        repository: None,
        wasm: true,
    }
}

fn version_row(id: i32, plugin_id: i32, num: &str) -> Version {
    Version {
        id,
        plugin_id,
        updated_at: 0,
        created_at: 0,
        num: num.to_string(),
        yanked: false,
        downloads: 0,
    }
}

#[test]
fn a_store_is_restored_from_its_rows_and_goes_on_after_the_greatest_id() {
    let mut db = Database::new();
    let a = alice(&mut db);
    insert_token_with(&mut db, &a, "t", &SecureToken::parse("s"), 1).unwrap();
    let p = NewPlugin::new("p", a.id, "P", "d", None, true);
    commit_release(&mut db, &p, "1.0.0", 1).unwrap();
    let back = Database::restore(
        db.users().clone(),
        db.api_tokens().clone(),
        db.plugins().clone(),
        db.versions().clone(),
    )
    .unwrap();
    assert_eq!(back.users(), db.users());
    assert_eq!(back.api_tokens(), db.api_tokens());
    assert_eq!(back.plugins(), db.plugins());
    assert_eq!(back.versions(), db.versions());

    let mut sparse = Database::restore(
        vec![user_row(5, 50), user_row(2, 20)],
        vec![token_row(9, 2, b"d", true), token_row(3, 5, b"d", false)],
        vec![plugin_row(4, 5, "p"), plugin_row(8, 2, "p")],
        vec![version_row(7, 4, "1.0.0"), version_row(1, 8, "1.0.0")],
    )
    .unwrap();
    let next = NewUser::new(60, "new", "t").create_or_update(&mut sparse).unwrap();
    assert_eq!(next.id, 6);
    let v = NewVersion::new(4, "2.0.0").create_or_update(&mut sparse, 1).unwrap();
    assert_eq!(v.id, 8);
    let p = NewPlugin::new("q", 2, "Q", "d", None, false).create_or_update(&mut sparse, 1).unwrap();
    assert_eq!(p.id, 9);
    assert!(Database::restore(vec![], vec![], vec![], vec![]).is_some());
}

#[test]
fn rows_that_share_an_id_or_a_natural_key_or_belong_to_nothing_are_not_restored() {
    let users = || vec![user_row(1, 10), user_row(2, 20)];
    let plugins = || vec![plugin_row(1, 1, "p"), plugin_row(2, 2, "p")];
    let restored = |u: Vec<User>, t: Vec<ApiToken>, p: Vec<Plugin>, v: Vec<Version>| {
        Database::restore(u, t, p, v).is_some()
    };
    assert!(restored(users(), vec![], plugins(), vec![]));
    assert!(!restored(vec![user_row(1, 10), user_row(1, 11)], vec![], vec![], vec![]));
    assert!(!restored(vec![user_row(1, 10), user_row(2, 10)], vec![], vec![], vec![]));
    assert!(!restored(vec![user_row(0, 10)], vec![], vec![], vec![]));
    assert!(!restored(vec![user_row(-3, 10)], vec![], vec![], vec![]));
    assert!(!restored(vec![user_row(i32::MAX, 10)], vec![], vec![], vec![]));
    assert!(restored(vec![user_row(i32::MAX - 1, 10)], vec![], vec![], vec![]));

    let live = |id: i32, digest: &[u8]| token_row(id, 1, digest, false);
    let dead = |id: i32, digest: &[u8]| token_row(id, 1, digest, true);
    assert!(!restored(users(), vec![live(1, b"d"), live(2, b"d")], vec![], vec![]));
    assert!(!restored(users(), vec![live(1, b"d"), live(1, b"e")], vec![], vec![]));
    assert!(restored(users(), vec![live(1, b"d"), dead(2, b"d"), dead(3, b"d")], vec![], vec![]));
    assert!(!restored(users(), vec![token_row(1, 3, b"d", false)], vec![], vec![]));

    assert!(!restored(users(), vec![], vec![plugin_row(1, 1, "p"), plugin_row(2, 1, "p")], vec![]));
    assert!(!restored(users(), vec![], vec![plugin_row(1, 1, "p"), plugin_row(1, 2, "q")], vec![]));
    assert!(!restored(users(), vec![], vec![plugin_row(1, 9, "p")], vec![]));
    assert!(!restored(vec![], vec![], vec![plugin_row(1, 1, "p")], vec![]));

    let two = |a: Version, b: Version| restored(users(), vec![], plugins(), vec![a, b]);
    assert!(!two(version_row(1, 1, "1"), version_row(2, 1, "1")));
    assert!(!two(version_row(1, 1, "1"), version_row(1, 1, "2")));
    assert!(two(version_row(1, 1, "1"), version_row(2, 1, "2")));
    assert!(two(version_row(1, 1, "1"), version_row(2, 2, "1")));
    assert!(!two(version_row(1, 1, "1"), version_row(2, 3, "1")));
}

#[test]
fn a_full_table_takes_no_new_row_but_still_updates() {
    let mut db =
        Database::restore(vec![user_row(i32::MAX - 1, 10)], vec![], vec![], vec![]).unwrap();
    assert_eq!(NewUser::new(11, "x", "t").create_or_update(&mut db), Err(Error::Internal));
    assert_eq!(db.users().len(), 1);
    let same = NewUser::new(10, "renamed", "t").create_or_update(&mut db).unwrap();
    assert_eq!((same.id, same.gh_login.as_str()), (i32::MAX - 1, "renamed"));
}

#[test]
fn messages() {
    assert_eq!(Error::Unauthorized(Credential::Bearer).message(), "API Token Invalid");
    assert_eq!(Error::Unauthorized(Credential::Session).message(), "unauthorized");
    assert_eq!(Error::Forbidden.message(), "forbidden");
    assert_eq!(Error::NotFound.message(), "not found");
    assert_eq!(Error::StateMismatch.message(), "invalid state parameter");
    assert_eq!(Error::BadArchive.message(), "archive isn't valid");
    assert_eq!(Error::BadManifest(ManifestFault::Missing).message(), "volt.toml doens't exist");
    assert_eq!(Error::BadManifest(ManifestFault::Invalid).message(), "volt.tmol format invalid");
    assert_eq!(Error::NoThemes(ThemeKind::Color).message(), "no color theme provided");
    assert_eq!(Error::NoThemes(ThemeKind::Icon).message(), "no icon theme provided");
    assert_eq!(
        Error::BadTheme { path: "t/i.toml".to_string() }.message(),
        "icon theme t/i.toml format invalid"
    );
    assert_eq!(Error::InvalidVersion.message(), "version isn't valid");
    assert_eq!(Error::NotAValidPlugin.message(), "not a valid plugin");
    assert_eq!(Error::Conflict.message(), "conflict");
    assert_eq!(Error::Internal.message(), "internal error");
    for (role, words) in [
        (volts::error::AssetRole::Wasm, "wasm"),
        (volts::error::AssetRole::ColorTheme, "color theme"),
        (volts::error::AssetRole::IconTheme, "icon theme"),
        (volts::error::AssetRole::Icon, "icon"),
    ] {
        let e = Error::MissingAsset { role, path: "a/b.x".to_string() };
        assert_eq!(e.message(), format!("{words} a/b.x not found"));
    }
}
