use volts::db::{commit_release, modify_plugin_version_yank, record_download, Database, NewPlugin, NewUser};
use volts::error::Error;
use volts::models::PluginList;
use volts::search::{search, SearchQuery};
use volts::text::{contains_bytes, contains_ignoring_case, same_bytes, same_text, split_bytes};

fn query(q: Option<&str>, sort: Option<&str>, limit: Option<usize>, offset: Option<usize>) -> SearchQuery {
    SearchQuery { q: q.map(str::to_string), sort: sort.map(str::to_string), limit, offset }
}

fn names(l: &PluginList) -> Vec<&str> {
    l.plugins.iter().map(|p| p.name.as_str()).collect()
}

fn registry() -> Database {
    let mut db = Database::new();
    let a = NewUser::new(1, "alice", "t").create_or_update(&mut db).unwrap();
    let b = NewUser::new(2, "bob", "t").create_or_update(&mut db).unwrap();
    let rows = [
        ("rust", a.id, "Rust", "Language support", "1.0.0", 10, 3),
        ("dark", b.id, "Dark Theme", "a THEME for the night", "0.1.0", 20, 0),
        ("go", a.id, "Go", "language Support", "2.0.0", 30, 3),
        ("light", b.id, "Light", "theme", "1.0.0", 40, 1),
    ];
    for (name, owner, display, description, version, at, downloads) in rows {
        let p = NewPlugin::new(name, owner, display, description, None, name != "dark");
        let (p, v) = commit_release(&mut db, &p, version, at).unwrap();
        for _ in 0..downloads {
            record_download(&mut db, p.id, v.id).unwrap();
        }
    }
    db
}

#[test]
fn default_search_ranks_by_downloads_and_keeps_table_order_among_equals() {
    let db = registry();
    let l = search(&query(None, None, None, None), &db).unwrap();
    assert_eq!((l.total, l.limit, l.offset), (4, 10, 0));
    assert_eq!(names(&l), vec!["rust", "go", "light", "dark"]);
    assert_eq!(l.plugins[0].author, "alice");
    assert_eq!(l.plugins[0].version, "1.0.0");
    assert_eq!(l.plugins[0].downloads, 3);
    assert_eq!(l.plugins[3].author, "bob");
    assert!(!l.plugins[3].wasm);
    assert_eq!(l.plugins[1].updated_at, "1970-01-01 00:00:30");
    assert_eq!(l.plugins[1].released_at, "1970-01-01 00:00:30");
    assert_eq!(l.plugins[1].updated_at_ts, 30);
}

#[test]
fn sort_orders() {
    let mut db = registry();
    let again = NewPlugin::new("rust", 1, "Rust", "Language support", None, true);
    commit_release(&mut db, &again, "1.1.0", 99).unwrap();
    let created = search(&query(None, Some("created"), None, None), &db).unwrap();
    assert_eq!(names(&created), vec!["light", "go", "dark", "rust"]);
    let updated = search(&query(None, Some("updated"), None, None), &db).unwrap();
    assert_eq!(names(&updated), vec!["rust", "light", "go", "dark"]);
    assert_eq!(updated.plugins[0].version, "1.1.0");
    let other = search(&query(None, Some("downloads"), None, None), &db).unwrap();
    assert_eq!(names(&other), vec!["rust", "go", "light", "dark"]);
    let unknown = search(&query(None, Some("Created"), None, None), &db).unwrap();
    assert_eq!(names(&unknown), names(&other));
}

#[test]
fn text_matches_name_description_or_display_name_whatever_the_case() {
    let db = registry();
    let l = search(&query(Some("THEME"), None, None, None), &db).unwrap();
    assert_eq!(l.total, 2);
    assert_eq!(names(&l), vec!["light", "dark"]);
    let l = search(&query(Some("support"), None, None, None), &db).unwrap();
    assert_eq!(names(&l), vec!["rust", "go"]);
    let l = search(&query(Some("rk th"), None, None, None), &db).unwrap();
    assert_eq!(names(&l), vec!["dark"]);
    let l = search(&query(Some("nothing like it"), None, None, None), &db).unwrap();
    assert_eq!((l.total, l.plugins.len()), (0, 0));
    let l = search(&query(Some(""), None, None, None), &db).unwrap();
    assert_eq!(l.total, 4);
    let l = search(&query(Some("%"), None, None, None), &db).unwrap();
    assert_eq!(l.total, 0);
}

#[test]
fn pages() {
    let db = registry();
    let l = search(&query(None, None, Some(2), Some(1)), &db).unwrap();
    assert_eq!((l.total, l.limit, l.offset), (4, 2, 1));
    assert_eq!(names(&l), vec!["go", "light"]);
    let l = search(&query(None, None, Some(5), Some(3)), &db).unwrap();
    assert_eq!(names(&l), vec!["dark"]);
    let l = search(&query(None, None, None, Some(4)), &db).unwrap();
    assert_eq!((l.total, l.plugins.len()), (4, 0));
    let l = search(&query(None, None, Some(0), None), &db).unwrap();
    assert_eq!((l.limit, l.plugins.len()), (0, 0));
    let l = search(&query(None, None, Some(100), None), &db).unwrap();
    assert_eq!(l.limit, 100);
    let l = search(&query(None, None, Some(101), Some(usize::MAX)), &db).unwrap();
    assert_eq!((l.limit, l.offset, l.plugins.len()), (100, usize::MAX, 0));
}

#[test]
fn the_page_is_clamped_to_a_hundred() {
    let mut db = Database::new();
    let a = NewUser::new(1, "alice", "t").create_or_update(&mut db).unwrap();
    for i in 0..120 {
        let name = format!("p{i:03}");
        let p = NewPlugin::new(&name, a.id, "P", "d", None, true);
        commit_release(&mut db, &p, "1.0.0", 1000 - i).unwrap();
    }
    let l = search(&query(None, Some("created"), Some(1000), None), &db).unwrap();
    assert_eq!((l.total, l.limit, l.plugins.len()), (120, 100, 100));
    assert_eq!(l.plugins[0].name, "p000");
    assert_eq!(l.plugins[99].name, "p099");
    let l = search(&query(None, Some("created"), None, Some(115)), &db).unwrap();
    assert_eq!(names(&l), vec!["p115", "p116", "p117", "p118", "p119"]);
}

#[test]
fn yanked_versions_are_neither_listed_nor_taken_for_the_latest() {
    let mut db = registry();
    let rust = db.plugins()[0].clone();
    let p = NewPlugin::new("rust", 1, "Rust", "Language support", None, true);
    commit_release(&mut db, &p, "2.0.0-alpha", 50).unwrap();
    commit_release(&mut db, &p, "not-a-version", 60).unwrap();
    let l = search(&query(Some("rust"), None, None, None), &db).unwrap();
    assert_eq!(l.plugins[0].version, "2.0.0-alpha");
    modify_plugin_version_yank(&mut db, &rust, "2.0.0-alpha", true, 70).unwrap();
    let l = search(&query(Some("rust"), None, None, None), &db).unwrap();
    assert_eq!(l.plugins[0].version, "1.0.0");
    modify_plugin_version_yank(&mut db, &rust, "1.0.0", true, 80).unwrap();
    let l = search(&query(Some("rust"), None, None, None), &db).unwrap();
    assert_eq!((l.total, l.plugins.len()), (1, 0));
    modify_plugin_version_yank(&mut db, &rust, "not-a-version", true, 90).unwrap();
    let l = search(&query(None, None, None, None), &db).unwrap();
    assert_eq!(l.total, 3);
    assert_eq!(names(&l), vec!["go", "light", "dark"]);
}

#[test]
fn a_time_outside_the_calendar_is_an_internal_failure() {
    let mut db = Database::new();
    let a = NewUser::new(1, "alice", "t").create_or_update(&mut db).unwrap();
    let p = NewPlugin::new("p", a.id, "P", "d", None, true);
    commit_release(&mut db, &p, "1.0.0", i64::MAX).unwrap();
    assert_eq!(search(&query(None, None, None, None), &db), Err(Error::Internal));
    assert_eq!(volts::plugin::meta(&db, "alice", "p", "1.0.0"), Err(Error::Internal));
    assert!(search(&query(None, None, None, Some(1)), &db).is_ok());
    assert_eq!(volts::time::api_time(i64::MAX), None);
    assert_eq!(volts::time::api_time(-1), Some("1969-12-31 23:59:59".to_string()));
}

#[test]
fn text_helpers() {
    assert!(contains_bytes(b"hello", b""));
    assert!(contains_bytes(b"", b""));
    assert!(contains_bytes(b"hello", b"llo"));
    assert!(contains_bytes(b"hello", b"hello"));
    assert!(!contains_bytes(b"hello", b"hello!"));
    assert!(!contains_bytes(b"hello", b"lol"));
    assert!(contains_ignoring_case("Grüße", "GRÜ"));
    assert!(!contains_ignoring_case("Gruesse", "grü"));
    assert!(same_text("a", "a") && !same_text("a", "A"));
    assert!(same_bytes(b"ab", b"ab") && !same_bytes(b"ab", b"abc") && !same_bytes(b"ab", b"aa"));
    assert_eq!(split_bytes(b"a..b.", b'.'), vec![b"a".to_vec(), vec![], b"b".to_vec(), vec![]]);
    assert_eq!(split_bytes(b"", b'/'), vec![Vec::<u8>::new()]);
}
