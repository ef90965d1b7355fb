use volts::archive::{pack, unpack, FileTree};
use volts::db::{insert_token_with, Database, NewUser};
use volts::error::{AssetRole, Credential, Error, ManifestFault, ThemeKind};
use volts::manifest::{same_opt_strings, same_strings, theme_icons, Manifest};
use volts::models::User;
use volts::plugin::{download, icon, meta, readme, unyank, yank};
use volts::publish::{manifest_text, plan_release, publish, read_package, release};
use volts::storage::{artifact_key, image_kind, mime, Artifact, ArtifactStore, ImageKind};
use volts::token::SecureToken;

const WASM_MANIFEST: &str = "name = \"MyPlugin\"\nversion = \"1.0.0\"\nauthor = \"mallory\"\n\
display-name = \"My Plugin\"\ndescription = \"does things\"\nwasm = \"bin/plugin.wasm\"\n\
icon = \"logo.png\"\nrepository = \"https://example.org/p\"\n";

const THEME: &str = "[icon-theme]\nname = \"x\"\n[icon-theme.ui]\na = \"icons/a.svg\"\n\
[icon-theme.foldername]\n[icon-theme.filename]\nb = \"icons/b.svg\"\n\
[icon-theme.extension]\nrs = \"icons/a.svg\"\n";

fn tree(files: &[(&str, &[u8])]) -> FileTree {
    let mut t = FileTree::new();
    for (path, data) in files {
        t.put(path.as_bytes().to_vec(), data.to_vec());
    }
    t
}

fn upload(files: &[(&str, &[u8])]) -> Vec<u8> {
    pack(&tree(files)).unwrap()
}

fn manifest(kind: &str) -> String {
    format!(
        "name = \"Theme\"\nversion = \"0.2.0\"\nauthor = \"a\"\ndisplay-name = \"T\"\n\
description = \"d\"\n{kind}\n"
    )
}

fn registry() -> (Database, ArtifactStore, User) {
    let mut db = Database::new();
    let alice = NewUser::new(7, "alice", "gho").create_or_update(&mut db).unwrap();
    insert_token_with(&mut db, &alice, "t", &SecureToken::parse("alice-secret"), 1).unwrap();
    let bob = NewUser::new(8, "bob", "gho").create_or_update(&mut db).unwrap();
    insert_token_with(&mut db, &bob, "t", &SecureToken::parse("bob-secret"), 1).unwrap();
    (db, ArtifactStore::new(), alice)
}

fn paths(t: &FileTree) -> Vec<String> {
    t.files().iter().map(|f| String::from_utf8(f.path.clone()).unwrap()).collect()
}

#[test]
fn published_wasm_plugin_is_lower_cased_and_owned_by_the_publisher() {
    let (mut db, mut store, _) = registry();
    let body = upload(&[
        ("volt.toml", WASM_MANIFEST.as_bytes()),
        ("bin/plugin.wasm", b"\0asm"),
        ("logo.png", b"PNG"),
        ("README.md", b"# hi"),
    ]);
    assert_eq!(publish(&mut db, &mut store, "alice-secret", &body, 1_441_497_364), Ok(()));

    let got = meta(&db, "alice", "myplugin", "1.0.0").unwrap();
    assert_eq!(got.name, "myplugin");
    assert_eq!(got.author, "alice");
    assert_eq!(got.version, "1.0.0");
    assert_eq!(got.display_name, "My Plugin");
    assert_eq!(got.description, "does things");
    assert_eq!(got.repository, Some("https://example.org/p".to_string()));
    assert_eq!(got.downloads, 0);
    assert!(got.wasm);
    assert_eq!(got.updated_at_ts, 1_441_497_364);
    assert_eq!(got.updated_at, "2015-09-05 23:56:04");
    assert_eq!(got.released_at, "2015-09-05 23:56:04");
    assert_eq!(meta(&db, "alice", "MyPlugin", "latest"), Ok(got));
    assert_eq!(meta(&db, "mallory", "myplugin", "1.0.0"), Err(Error::NotFound));
    assert_eq!(meta(&db, "alice", "myplugin", "2.0.0"), Err(Error::NotFound));

    let archive = store.get("alice/myplugin/1.0.0/archive").unwrap();
    let staged = unpack(&archive.bytes).unwrap();
    let text = staged.get(b"volt.toml").unwrap().clone();
    let m = Manifest::parse(&text).unwrap();
    assert_eq!(m.name, "myplugin");
    assert_eq!(m.author, "alice");
    assert_eq!(m.version, "1.0.0");
    assert_eq!(m.wasm, Some("bin/plugin.wasm".to_string()));
}

#[test]
fn empty_colour_theme_list_is_refused() {
    let (mut db, mut store, _) = registry();
    let body = upload(&[("volt.toml", manifest("color-themes = []").as_bytes())]);
    let refused = publish(&mut db, &mut store, "alice-secret", &body, 5);
    assert_eq!(refused, Err(Error::NoThemes(ThemeKind::Color)));
    assert_eq!(refused.as_ref().unwrap_err().message(), "no color theme provided");
    assert_eq!(refused.unwrap_err().status_code(), 400);
    assert!(db.plugins().is_empty());
    assert!(db.versions().is_empty());
    assert!(store.objects().is_empty());
    let icons = upload(&[("volt.toml", manifest("icon-themes = []").as_bytes())]);
    let refused = publish(&mut db, &mut store, "alice-secret", &icons, 5);
    assert_eq!(refused, Err(Error::NoThemes(ThemeKind::Icon)));
    assert_eq!(refused.unwrap_err().message(), "no icon theme provided");
    let none = upload(&[("volt.toml", manifest("").as_bytes())]);
    assert_eq!(
        publish(&mut db, &mut store, "alice-secret", &none, 5),
        Err(Error::NotAValidPlugin)
    );
}

#[test]
fn yank_of_a_plugin_of_another_account_is_forbidden_and_changes_nothing() {
    let (mut db, mut store, _) = registry();
    let body = upload(&[("volt.toml", WASM_MANIFEST.as_bytes()), ("bin/plugin.wasm", b"w")]);
    publish(&mut db, &mut store, "alice-secret", &body, 10).unwrap();
    let before = db.versions().clone();
    assert_eq!(yank(&mut db, "bob-secret", "myplugin", "1.0.0", 20), Err(Error::Forbidden));
    assert_eq!(db.versions(), &before);
    assert!(!db.versions()[0].yanked);
    let unknown = yank(&mut db, "nobody", "myplugin", "1.0.0", 20);
    assert_eq!(unknown, Err(Error::Unauthorized(Credential::Bearer)));
    assert_eq!(unknown.as_ref().unwrap_err().message(), "API Token Invalid");
    assert_eq!(unknown.unwrap_err().status_code(), 401);
    assert_eq!(yank(&mut db, "alice-secret", "myplugin", "3.0.0", 20), Err(Error::NotFound));
    assert_eq!(db.versions(), &before);

    assert_eq!(yank(&mut db, "alice-secret", "MyPlugin", "1.0.0", 30), Ok(()));
    assert!(db.versions()[0].yanked);
    assert_eq!(db.versions()[0].updated_at, 30);
    assert_eq!(meta(&db, "alice", "myplugin", "latest"), Err(Error::NotFound));
    assert!(meta(&db, "alice", "myplugin", "1.0.0").is_ok());
    assert!(store.get("alice/myplugin/1.0.0/archive").is_ok());
    assert_eq!(unyank(&mut db, "alice-secret", "myplugin", "1.0.0", 40), Ok(()));
    assert!(!db.versions()[0].yanked);
    assert!(meta(&db, "alice", "myplugin", "latest").is_ok());
}

#[test]
fn round_trip_keeps_declared_files_and_drops_the_rest() {
    let (mut db, mut store, _) = registry();
    let local = tree(&[
        ("volt.toml", WASM_MANIFEST.as_bytes()),
        ("bin/plugin.wasm", b"\0asm\x01\x02"),
        ("logo.png", b"\x89PNG"),
        ("README.md", b"# readme"),
        ("target/debug/junk.o", b"junk"),
        (".env", b"SECRET=1"),
    ]);
    let body = volts::cli::publish(&local).unwrap();
    let sent = unpack(&body).unwrap();
    assert_eq!(paths(&sent), vec!["volt.toml", "bin/plugin.wasm", "README.md", "logo.png"]);
    assert_eq!(sent.get(b"volt.toml").unwrap(), WASM_MANIFEST.as_bytes());

    let mut with_junk = unpack(&body).unwrap();
    with_junk.put(b"evil.sh".to_vec(), b"rm -rf".to_vec());
    let body = pack(&with_junk).unwrap();
    publish(&mut db, &mut store, "alice-secret", &body, 50).unwrap();

    let key = download(&mut db, "alice", "MyPlugin", "latest").unwrap();
    assert_eq!(key, "alice/myplugin/1.0.0/archive");
    assert_eq!(db.plugins()[0].downloads, 1);
    assert_eq!(db.versions()[0].downloads, 1);
    let fetched = unpack(&store.get(&key).unwrap().bytes).unwrap();
    assert_eq!(paths(&fetched), vec!["volt.toml", "bin/plugin.wasm", "README.md", "logo.png"]);
    for path in ["bin/plugin.wasm", "README.md", "logo.png"] {
        assert_eq!(fetched.get(path.as_bytes()), local.get(path.as_bytes()), "{path}");
    }
    let m = Manifest::parse(fetched.get(b"volt.toml").unwrap()).unwrap();
    assert_eq!((m.name.as_str(), m.author.as_str()), ("myplugin", "alice"));
    assert_eq!(m.icon, Some("logo.png".to_string()));

    assert_eq!(readme(&db, &store, "alice", "myplugin", "1.0.0"), Ok(b"# readme".to_vec()));
    let served = icon(&db, &store, "alice", "myplugin", "1.0.0").unwrap();
    assert_eq!(served.bytes, b"\x89PNG".to_vec());
    assert_eq!(served.content_type, "image/png");
    assert_eq!(served.cache_control, "public, max-age=86400");
    assert_eq!(download(&mut db, "alice", "myplugin", "7.0.0"), Err(Error::NotFound));
    assert_eq!(db.plugins()[0].downloads, 1);
}

#[test]
fn republishing_a_version_keeps_one_row_and_the_second_description() {
    let (mut db, mut store, _) = registry();
    let second = WASM_MANIFEST.replace("does things", "does other things");
    let one = upload(&[("volt.toml", WASM_MANIFEST.as_bytes()), ("bin/plugin.wasm", b"1")]);
    let two = upload(&[("volt.toml", second.as_bytes()), ("bin/plugin.wasm", b"2")]);
    publish(&mut db, &mut store, "alice-secret", &one, 10).unwrap();
    publish(&mut db, &mut store, "alice-secret", &two, 20).unwrap();
    assert_eq!(db.plugins().len(), 1);
    assert_eq!(db.versions().len(), 1);
    assert_eq!(db.plugins()[0].description, "does other things");
    assert_eq!(db.plugins()[0].updated_at, 20);
    assert_eq!(db.plugins()[0].created_at, 10);
    let stored = unpack(&store.get("alice/myplugin/1.0.0/archive").unwrap().bytes).unwrap();
    assert_eq!(stored.get(b"bin/plugin.wasm"), Some(&b"2".to_vec()));
    assert_eq!(store.objects().len(), 1);
}

#[test]
fn each_failure_of_the_pipeline() {
    let (mut db, mut store, _) = registry();
    let ok = upload(&[("volt.toml", WASM_MANIFEST.as_bytes()), ("bin/plugin.wasm", b"w")]);
    assert_eq!(
        publish(&mut db, &mut store, "wrong", &ok, 1),
        Err(Error::Unauthorized(Credential::Bearer))
    );
    assert_eq!(
        publish(&mut db, &mut store, "alice-secret", b"not gzip", 1),
        Err(Error::BadArchive)
    );
    let no_manifest = upload(&[("bin/plugin.wasm", b"w")]);
    assert_eq!(
        publish(&mut db, &mut store, "alice-secret", &no_manifest, 1),
        Err(Error::BadManifest(ManifestFault::Missing))
    );
    let bad_toml = upload(&[("volt.toml", b"name = ")]);
    assert_eq!(
        publish(&mut db, &mut store, "alice-secret", &bad_toml, 1),
        Err(Error::BadManifest(ManifestFault::Invalid))
    );
    let no_version = upload(&[("volt.toml", b"name = \"x\"\nauthor=\"a\"")]);
    assert_eq!(
        publish(&mut db, &mut store, "alice-secret", &no_version, 1),
        Err(Error::BadManifest(ManifestFault::Invalid))
    );
    let two_kinds = format!("{WASM_MANIFEST}color-themes = [\"a.toml\"]\n");
    let body = upload(&[
        ("volt.toml", two_kinds.as_bytes()),
        ("bin/plugin.wasm", b"w"),
        ("a.toml", b"t"),
    ]);
    assert_eq!(
        publish(&mut db, &mut store, "alice-secret", &body, 1),
        Err(Error::BadManifest(ManifestFault::Invalid))
    );
    assert_eq!(
        volts::cli::publish(&unpack(&body).unwrap()),
        Err(Error::BadManifest(ManifestFault::Invalid))
    );
    let bad_version = WASM_MANIFEST.replace("1.0.0", "1.0");
    let body = upload(&[("volt.toml", bad_version.as_bytes()), ("bin/plugin.wasm", b"w")]);
    assert_eq!(
        publish(&mut db, &mut store, "alice-secret", &body, 1),
        Err(Error::InvalidVersion)
    );
    let no_wasm = upload(&[("volt.toml", WASM_MANIFEST.as_bytes())]);
    assert_eq!(
        publish(&mut db, &mut store, "alice-secret", &no_wasm, 1),
        Err(Error::MissingAsset { role: AssetRole::Wasm, path: "bin/plugin.wasm".to_string() })
    );
    let themes = manifest("color-themes = [\"a.toml\", \"b.toml\"]");
    let one = upload(&[("volt.toml", themes.as_bytes()), ("a.toml", b"x")]);
    assert_eq!(
        publish(&mut db, &mut store, "alice-secret", &one, 1),
        Err(Error::MissingAsset { role: AssetRole::ColorTheme, path: "b.toml".to_string() })
    );
    assert!(db.plugins().is_empty());
    assert!(store.objects().is_empty());
    assert_eq!(db.api_tokens()[0].last_used_at, Some(1));
}

#[test]
fn colour_themes_are_staged_and_the_plugin_is_no_wasm_plugin() {
    let (mut db, mut store, _) = registry();
    let themes = manifest("color-themes = [\"./themes/a.toml\", \"themes/../b.toml\"]");
    let body = upload(&[
        ("volt.toml", themes.as_bytes()),
        ("themes/a.toml", b"a"),
        ("b.toml", b"b"),
        ("c.toml", b"c"),
    ]);
    publish(&mut db, &mut store, "alice-secret", &body, 9).unwrap();
    assert!(!db.plugins()[0].wasm);
    assert_eq!(db.plugins()[0].name, "theme");
    let stored = unpack(&store.get("alice/theme/0.2.0/archive").unwrap().bytes).unwrap();
    assert_eq!(paths(&stored), vec!["volt.toml", "themes/a.toml", "b.toml"]);
}

#[test]
fn icon_theme_icons_go_up_under_one_key_and_the_last_stays() {
    let (mut db, mut store, _) = registry();
    let themes = manifest("icon-themes = [\"themes/icons.toml\"]");
    let files: Vec<(&str, &[u8])> = vec![
        ("volt.toml", themes.as_bytes()),
        ("themes/icons.toml", THEME.as_bytes()),
        ("themes/icons/a.svg", b"<a/>"),
        ("themes/icons/b.svg", b"<b/>"),
        ("themes/icons/unused.svg", b"<u/>"),
    ];
    assert_eq!(
        theme_icons(THEME.as_bytes()),
        Some(vec!["icons/a.svg".to_string(), "icons/b.svg".to_string()])
    );
    publish(&mut db, &mut store, "alice-secret", &upload(&files), 9).unwrap();
    let kept = store.get("alice/theme/0.2.0/icon").unwrap();
    assert_eq!(kept.bytes, b"<b/>".to_vec());
    assert_eq!(kept.content_type, None);
    assert_eq!(icon(&db, &store, "alice", "theme", "0.2.0").unwrap().content_type, "image/*");
    let stored = unpack(&store.get("alice/theme/0.2.0/archive").unwrap().bytes).unwrap();
    assert_eq!(
        paths(&stored),
        vec!["volt.toml", "themes/icons.toml", "themes/icons/a.svg", "themes/icons/b.svg"]
    );
    assert_eq!(readme(&db, &store, "alice", "theme", "0.2.0"), Err(Error::NotFound));
}

#[test]
fn a_missing_icon_stops_the_publish_but_earlier_uploads_stay() {
    let (mut db, mut store, _) = registry();
    let themes = manifest("icon-themes = [\"themes/icons.toml\"]");
    let body = upload(&[
        ("volt.toml", themes.as_bytes()),
        ("themes/icons.toml", THEME.as_bytes()),
        ("themes/icons/a.svg", b"<a/>"),
    ]);
    assert_eq!(
        publish(&mut db, &mut store, "alice-secret", &body, 9),
        Err(Error::MissingAsset { role: AssetRole::Icon, path: "icons/b.svg".to_string() })
    );
    assert_eq!(store.get("alice/theme/0.2.0/icon").unwrap().bytes, b"<a/>".to_vec());
    assert!(store.get("alice/theme/0.2.0/archive").is_err());
    assert!(db.plugins().is_empty());

    let no_theme = upload(&[("volt.toml", themes.as_bytes())]);
    assert_eq!(
        publish(&mut db, &mut store, "alice-secret", &no_theme, 9),
        Err(Error::MissingAsset {
            role: AssetRole::IconTheme,
            path: "themes/icons.toml".to_string()
        })
    );
    let broken = upload(&[
        ("volt.toml", themes.as_bytes()),
        ("themes/icons.toml", b"[icon-theme.ui]\na = 1\n"),
    ]);
    let refused = publish(&mut db, &mut store, "alice-secret", &broken, 9);
    assert_eq!(refused, Err(Error::BadTheme { path: "themes/icons.toml".to_string() }));
    assert_eq!(refused.unwrap_err().message(), "icon theme themes/icons.toml format invalid");
    assert_eq!(theme_icons(b"[icon-theme.ui]\n"), None);
}

#[test]
fn image_kinds_and_content_types() {
    for (path, kind, text) in [
        ("logo.png", ImageKind::Png, "image/png"),
        ("a/b/logo.jpg", ImageKind::Jpeg, "image/jpeg"),
        ("logo.jpeg", ImageKind::Jpeg, "image/jpeg"),
        ("logo.svg", ImageKind::Svg, "image/svg+xml"),
        ("logo.tar.svg", ImageKind::Svg, "image/svg+xml"),
        ("logo.PNG", ImageKind::Other, "image/*"),
        ("logo.gif", ImageKind::Other, "image/*"),
        ("logo", ImageKind::Other, "image/*"),
        (".png", ImageKind::Other, "image/*"),
        ("a.png/logo", ImageKind::Other, "image/*"),
        ("..png", ImageKind::Png, "image/png"),
        ("png", ImageKind::Other, "image/*"),
    ] {
        assert_eq!(image_kind(path.as_bytes()), kind, "{path}");
        assert_eq!(mime(kind), text);
    }
    assert_eq!(artifact_key("alice", "p", "1.0.0", Artifact::Archive), "alice/p/1.0.0/archive");
    assert_eq!(artifact_key("alice", "p", "1.0.0", Artifact::Readme), "alice/p/1.0.0/readme");
    assert_eq!(artifact_key("a", "", "v", Artifact::Icon), "a//v/icon");
}

#[test]
fn an_absent_icon_is_passed_over_by_the_registry() {
    let (mut db, mut store, _) = registry();
    let body = upload(&[("volt.toml", WASM_MANIFEST.as_bytes()), ("bin/plugin.wasm", b"w")]);
    publish(&mut db, &mut store, "alice-secret", &body, 9).unwrap();
    assert_eq!(icon(&db, &store, "alice", "myplugin", "1.0.0"), Err(Error::NotFound));
    let jpg = WASM_MANIFEST.replace("logo.png", "art/logo.jpg");
    let body = upload(&[
        ("volt.toml", jpg.as_bytes()),
        ("bin/plugin.wasm", b"w"),
        ("art/logo.jpg", b"JFIF"),
    ]);
    publish(&mut db, &mut store, "alice-secret", &body, 9).unwrap();
    let o = store.get("alice/myplugin/1.0.0/icon").unwrap();
    assert_eq!(o.content_type, Some("image/jpeg".to_string()));
    assert_eq!(store.head("alice/myplugin/1.0.0/icon"), Ok(Some("image/jpeg".to_string())));
    assert_eq!(store.head("alice/myplugin/1.0.0/readme"), Err(Error::NotFound));
}

#[test]
fn plan_and_release_by_hand() {
    let (mut db, mut store, alice) = registry();
    let body = upload(&[
        ("volt.toml", WASM_MANIFEST.as_bytes()),
        ("bin/plugin.wasm", b"w"),
        ("README.md", b"r"),
    ]);
    let (files, m) = read_package(&body, "alice").unwrap();
    assert_eq!((m.name.as_str(), m.author.as_str()), ("myplugin", "alice"));
    let plan = plan_release(&files, &m, "alice");
    assert_eq!(plan.outcome, Ok(true));
    assert_eq!(plan.uploads.len(), 1);
    assert_eq!(plan.uploads[0].key, "alice/myplugin/1.0.0/readme");
    assert_eq!(plan.uploads[0].bytes, b"r".to_vec());
    assert_eq!(paths(&plan.staged), vec!["volt.toml", "bin/plugin.wasm", "README.md"]);
    assert_eq!(plan.staged.get(b"volt.toml"), Some(&vec![]));
    let text = manifest_text(&files, &m).unwrap();
    assert_ne!(text, WASM_MANIFEST.as_bytes());
    let back = Manifest::parse(&text).unwrap();
    assert!(back.same_fields(&m));
    assert_eq!(
        release(&mut db, &mut store, alice.id, "alice", &files, &m, b"rendered".to_vec(), 3),
        Ok(())
    );
    assert_eq!(db.versions()[0].num, "1.0.0");
    assert_eq!(
        release(&mut db, &mut store, 99, "ghost", &files, &m, b"rendered".to_vec(), 3),
        Err(Error::Internal)
    );
    assert!(store.get("ghost/myplugin/1.0.0/archive").is_ok());
    assert_eq!(db.plugins().len(), 1);
}

#[test]
fn status_codes() {
    assert_eq!(Error::Unauthorized(Credential::Bearer).status_code(), 401);
    assert_eq!(Error::Unauthorized(Credential::Session).status_code(), 401);
    assert_eq!(Error::Forbidden.status_code(), 403);
    assert_eq!(Error::NotFound.status_code(), 404);
    assert_eq!(Error::Conflict.status_code(), 409);
    assert_eq!(Error::Internal.status_code(), 500);
    for e in [
        Error::StateMismatch,
        Error::BadArchive,
        Error::BadManifest(ManifestFault::Missing),
        Error::BadManifest(ManifestFault::Invalid),
        Error::NoThemes(ThemeKind::Color),
        Error::BadTheme { path: "t".to_string() },
        Error::InvalidVersion,
        Error::NotAValidPlugin,
        Error::MissingAsset { role: AssetRole::Icon, path: "x".to_string() },
    ] {
        assert_eq!(e.status_code(), 400);
    }
}

#[test]
fn the_stored_manifest_reads_back_with_the_publishers_name_and_author() {
    let (mut db, mut store, _) = registry();
    let text = "name = \"Quote\\\"d \u{dc}ber\"\nversion = \"1.0.0+b.1\"\nauthor = \"mallory\"\n\
display-name = \"line one\\nline two\"\ndescription = \"tab\\there\"\nwasm = \"p.wasm\"\n\
[activation]\nlanguage = [\"rust\"]\n[config.a]\ndefault = 1\ndescription = \"x\"\n\
[config.b]\ndefault = \"y\"\ndescription = \"z\"\n";
    let sent = Manifest::parse(text.as_bytes()).unwrap();
    let body = upload(&[("volt.toml", text.as_bytes()), ("p.wasm", b"w")]);
    assert_eq!(publish(&mut db, &mut store, "alice-secret", &body, 3), Ok(()));
    let key = "alice/quote\"d \u{fc}ber/1.0.0+b.1/archive";
    let stored = unpack(&store.get(key).unwrap().bytes).unwrap();
    let back = Manifest::parse(stored.get(b"volt.toml").unwrap()).unwrap();
    assert_eq!(back.name, "quote\"d \u{fc}ber");
    assert_eq!(back.author, "alice");
    assert_eq!(back.display_name, "line one\nline two");
    assert_eq!(back.description, "tab\there");
    assert_eq!(back.version, sent.version);
    assert!(!back.same_fields(&sent));
    let (_, published) = read_package(&body, "alice").unwrap();
    assert!(back.same_fields(&published));
    assert!(published.same_fields(&published));
}

#[test]
fn lists_of_strings_are_the_same_where_every_string_is() {
    let l = |v: &[&str]| v.iter().map(|s| s.to_string()).collect::<Vec<String>>();
    assert!(same_strings(&l(&[]), &l(&[])));
    assert!(same_strings(&l(&["a", "b"]), &l(&["a", "b"])));
    assert!(!same_strings(&l(&["a", "b"]), &l(&["b", "a"])));
    assert!(!same_strings(&l(&["a"]), &l(&["a", "b"])));
    assert!(same_opt_strings(&None, &None));
    assert!(!same_opt_strings(&None, &Some(l(&[]))));
    assert!(same_opt_strings(&Some(l(&["x"])), &Some(l(&["x"]))));
    assert!(!same_opt_strings(&Some(l(&["x"])), &Some(l(&["y"]))));
}

#[test]
fn a_manifest_that_needs_no_change_is_stored_byte_for_byte() {
    let (mut db, mut store, _) = registry();
    let text = "# kept as it stands\nname = \"plain\"\nversion = \"1.0.0\"\nauthor = \"alice\"\n\
display-name   =   \"Plain\"\ndescription = \"d\"\nwasm = \"p.wasm\"\n";
    let body = upload(&[("volt.toml", text.as_bytes()), ("p.wasm", b"w")]);
    assert_eq!(publish(&mut db, &mut store, "alice-secret", &body, 3), Ok(()));
    let stored = unpack(&store.get("alice/plain/1.0.0/archive").unwrap().bytes).unwrap();
    assert_eq!(stored.get(b"volt.toml"), Some(&text.as_bytes().to_vec()));
    assert_eq!(paths(&stored), vec!["volt.toml", "p.wasm"]);
    assert_eq!(publish(&mut db, &mut store, "alice-secret", &body, 4), Ok(()));
    assert_eq!(db.versions().len(), 1);

    let other = text.replace("alice", "mallory");
    let body = upload(&[("volt.toml", other.as_bytes()), ("p.wasm", b"w")]);
    assert_eq!(publish(&mut db, &mut store, "alice-secret", &body, 5), Ok(()));
    let stored = unpack(&store.get("alice/plain/1.0.0/archive").unwrap().bytes).unwrap();
    let kept = stored.get(b"volt.toml").unwrap();
    assert_ne!(kept, &other.as_bytes().to_vec());
    assert_eq!(Manifest::parse(kept).unwrap().author, "alice");
}

#[test]
fn a_file_named_like_the_manifest_cannot_take_its_place() {
    let (mut db, mut store, _) = registry();
    let text = WASM_MANIFEST.replace("bin/plugin.wasm", "volt.toml");
    let body = upload(&[("volt.toml", text.as_bytes())]);
    assert_eq!(publish(&mut db, &mut store, "alice-secret", &body, 3), Ok(()));
    let stored = unpack(&store.get("alice/myplugin/1.0.0/archive").unwrap().bytes).unwrap();
    let m = Manifest::parse(stored.get(b"volt.toml").unwrap()).unwrap();
    assert_eq!((m.name.as_str(), m.author.as_str()), ("myplugin", "alice"));
}

#[test]
fn a_package_is_checked_before_its_manifest_is_written() {
    let (mut db, mut store, _) = registry();
    let missing = upload(&[("volt.toml", WASM_MANIFEST.as_bytes())]);
    assert_eq!(
        publish(&mut db, &mut store, "alice-secret", &missing, 3),
        Err(Error::MissingAsset { role: AssetRole::Wasm, path: "bin/plugin.wasm".to_string() })
    );
    let (files, m) = read_package(&missing, "alice").unwrap();
    assert_eq!(plan_release(&files, &m, "alice").outcome.err(), Some(Error::MissingAsset {
        role: AssetRole::Wasm,
        path: "bin/plugin.wasm".to_string()
    }));
    assert!(store.objects().is_empty());
}

fn nested(depth: usize) -> String {
    format!("deep = {}{}\n", "[".repeat(depth), "]".repeat(depth))
}

#[test]
fn a_manifest_that_nests_too_deep_is_not_read() {
    let deep = format!("{WASM_MANIFEST}{}", nested(17));
    assert!(Manifest::parse(deep.as_bytes()).is_none());
    for depth in [64, 1000, 100_000] {
        let deeper = format!("{WASM_MANIFEST}{}", nested(depth));
        assert!(Manifest::parse(deeper.as_bytes()).is_none());
        let braces = format!("a = {}1{}\n", "{ a = ".repeat(depth), " }".repeat(depth));
        assert!(Manifest::parse(braces.as_bytes()).is_none());
        let dotted = format!("{WASM_MANIFEST}a{} = 1\n", ".a".repeat(depth + 200));
        assert!(Manifest::parse(dotted.as_bytes()).is_none());
        let header = format!("{WASM_MANIFEST}[a{}]\n", ".a".repeat(depth + 200));
        assert!(Manifest::parse(header.as_bytes()).is_none());
        assert_eq!(theme_icons(nested(depth).as_bytes()), None);
    }
    let (mut db, mut store, _) = registry();
    let deep = format!("{WASM_MANIFEST}{}", nested(5000));
    let body = upload(&[("volt.toml", deep.as_bytes()), ("bin/plugin.wasm", b"w")]);
    assert_eq!(
        publish(&mut db, &mut store, "alice-secret", &body, 3),
        Err(Error::BadManifest(ManifestFault::Invalid))
    );
    let themes = manifest("icon-themes = [\"t.toml\"]");
    let theme = format!("{THEME}{}", nested(5000));
    let body = upload(&[("volt.toml", themes.as_bytes()), ("t.toml", theme.as_bytes())]);
    assert_eq!(
        publish(&mut db, &mut store, "alice-secret", &body, 3),
        Err(Error::BadTheme { path: "t.toml".to_string() })
    );
}

#[test]
fn the_deepest_text_that_is_read_is_read() {
    let arrays = format!("{WASM_MANIFEST}[config.a]\ndescription = \"d\"\ndefault = {}1{}\n", "[".repeat(15), "]".repeat(15));
    assert!(volts::manifest::shallow(arrays.as_bytes()));
    assert!(Manifest::parse(arrays.as_bytes()).is_some());
    let one_more = format!("{arrays}x = []\n");
    assert!(!volts::manifest::shallow(one_more.as_bytes()));
    let dots = format!("{WASM_MANIFEST}[a{}]\nb{} = 1\n", ".a".repeat(100), ".b".repeat(100));
    assert!(volts::manifest::shallow(dots.as_bytes()));
    assert!(Manifest::parse(dots.as_bytes()).is_some());
    let mixed = format!(
        "a{} = {}1{}\nb = \"{}\"\n",
        ".a".repeat(60),
        "[{ c.d.e.f = ".repeat(8),
        " }]".repeat(8),
        ".".repeat(130)
    );
    assert!(volts::manifest::shallow(mixed.as_bytes()));
    assert!(Manifest::parse(mixed.as_bytes()).is_none());
    assert!(volts::manifest::shallow(THEME.as_bytes()));
    assert!(volts::manifest::shallow(b""));
}
