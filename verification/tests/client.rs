use volts::archive::{unpack, FileTree};
use volts::cli::{
    auth_token, bearer, cli, typed_token, Cli, Commands, Method, TokenChoice, KEYRING_ACCOUNT,
    KEYRING_SERVICE,
};
use volts::error::{AssetRole, Credential, Error, ManifestFault, ThemeKind};
use volts::front::{
    add_token, get_api_tokens, get_plugins, merge_page, readme_view, remove_token,
    should_load_more, AppContext, IndexedPlugin, ReadmeView,
};
use volts::models::{ApiToken, EncodeApiToken, EncodePlugin};

fn tree(files: &[(&str, &[u8])]) -> FileTree {
    let mut t = FileTree::new();
    for (path, data) in files {
        t.put(path.as_bytes().to_vec(), data.to_vec());
    }
    t
}

fn plugin(id: i32) -> EncodePlugin {
    EncodePlugin {
        id,
        name: format!("p{id}"),
        author: "a".to_string(),
        version: "1.0.0".to_string(),
        display_name: "P".to_string(),
        description: String::new(),
        downloads: 0,
        repository: None,
        updated_at_ts: 0,
        updated_at: String::new(),
        released_at: String::new(),
        wasm: true,
    }
}

#[test]
fn each_command_comes_to_its_request() {
    let r = cli(&Cli { command: Commands::Publish, token: None });
    assert_eq!((r.method, r.url.as_str()), (Method::Put, "https://plugins.lapce.dev/api/v1/me/plugins/new"));
    let yank = Commands::Yank { name: "rust".to_string(), version: "1.0.0".to_string() };
    let r = cli(&Cli { command: yank, token: Some("t".to_string()) });
    assert_eq!(
        (r.method, r.url.as_str()),
        (Method::Post, "https://plugins.lapce.dev/api/v1/me/plugins/rust/1.0.0/yank")
    );
    let unyank = Commands::Unyank { name: "rust".to_string(), version: "1.0.0".to_string() };
    let r = cli(&Cli { command: unyank, token: None });
    assert_eq!(
        (r.method, r.url.as_str()),
        (Method::Post, "https://plugins.lapce.dev/api/v1/me/plugins/rust/1.0.0/unyank")
    );
}

#[test]
fn the_token_of_the_command_line_goes_before_the_stored_one() {
    let with = Cli { command: Commands::Publish, token: Some("flag".to_string()) };
    let without = Cli { command: Commands::Publish, token: None };
    assert_eq!(auth_token(&with, Some("stored")), TokenChoice::Use("flag".to_string()));
    assert_eq!(auth_token(&with, None), TokenChoice::Use("flag".to_string()));
    assert_eq!(auth_token(&without, Some("stored")), TokenChoice::Use("stored".to_string()));
    assert_eq!(auth_token(&without, None), TokenChoice::Ask);
    assert_eq!((KEYRING_SERVICE, KEYRING_ACCOUNT), ("lapce-volts", "registry-api"));
}

#[test]
fn a_typed_token_is_trimmed_and_must_not_be_empty() {
    assert_eq!(typed_token("  abc123 \n"), Ok("abc123".to_string()));
    assert_eq!(typed_token("a b\r\n"), Ok("a b".to_string()));
    assert_eq!(typed_token(" \t\n"), Err(Error::Unauthorized(Credential::Bearer)));
    assert_eq!(typed_token(""), Err(Error::Unauthorized(Credential::Bearer)));
    assert_eq!(bearer(" tok\n"), "tok");
}

#[test]
fn the_client_archive_holds_the_manifest_as_it_stands() {
    let text = "name = \"P\"\nversion = \"not checked here\"\nauthor = \"me\"\n\
display-name = \"P\"\ndescription = \"d\"\ncolor-themes = [\"t.toml\"]\n";
    let t = tree(&[("volt.toml", text.as_bytes()), ("t.toml", b"theme"), ("x", b"y")]);
    let sent = unpack(&volts::cli::publish(&t).unwrap()).unwrap();
    assert_eq!(sent.files().len(), 2);
    assert_eq!(sent.get(b"volt.toml"), Some(&text.as_bytes().to_vec()));
    assert_eq!(sent.get(b"t.toml"), Some(&b"theme".to_vec()));
}

#[test]
fn the_client_refuses_what_the_registry_would_and_a_missing_icon() {
    let base = "name = \"P\"\nversion = \"1.0.0\"\nauthor = \"me\"\ndisplay-name = \"P\"\n\
description = \"d\"\n";
    assert_eq!(
        volts::cli::publish(&tree(&[])),
        Err(Error::BadManifest(ManifestFault::Missing))
    );
    assert_eq!(
        volts::cli::publish(&tree(&[("volt.toml", b"[")])),
        Err(Error::BadManifest(ManifestFault::Invalid))
    );
    assert_eq!(
        volts::cli::publish(&tree(&[("volt.toml", base.as_bytes())])),
        Err(Error::NotAValidPlugin)
    );
    let wasm = format!("{base}wasm = \"p.wasm\"\nicon = \"i.png\"\n");
    assert_eq!(
        volts::cli::publish(&tree(&[("volt.toml", wasm.as_bytes())])),
        Err(Error::MissingAsset { role: AssetRole::Wasm, path: "p.wasm".to_string() })
    );
    assert_eq!(
        volts::cli::publish(&tree(&[("volt.toml", wasm.as_bytes()), ("p.wasm", b"w")])),
        Err(Error::MissingAsset { role: AssetRole::Icon, path: "i.png".to_string() })
    );
    let themes = format!("{base}color-themes = []\n");
    assert_eq!(
        volts::cli::publish(&tree(&[("volt.toml", themes.as_bytes())])),
        Err(Error::NoThemes(ThemeKind::Color))
    );
}

#[test]
fn search_urls() {
    assert_eq!(get_plugins(None, None, None), "/api/v1/plugins");
    assert_eq!(get_plugins(Some("rust"), None, None), "/api/v1/plugins?q=rust");
    assert_eq!(get_plugins(None, Some("created"), None), "/api/v1/plugins?sort=created");
    assert_eq!(get_plugins(None, None, Some("20")), "/api/v1/plugins?offset=20");
    assert_eq!(
        get_plugins(Some("a b"), Some("updated"), Some("10")),
        "/api/v1/plugins?q=a b&sort=updated&offset=10"
    );
    assert_eq!(get_plugins(Some(""), None, Some("0")), "/api/v1/plugins?q=&offset=0");
}

#[test]
fn a_page_joins_the_list_at_its_offset() {
    let shown = merge_page(vec![], 0, vec![plugin(1), plugin(2)]);
    let flags: Vec<(i32, bool)> = shown.iter().map(|p| (p.plugin.id, p.last)).collect();
    assert_eq!(flags, vec![(1, false), (2, true)]);
    let more = merge_page(shown.clone(), 2, vec![plugin(3)]);
    let flags: Vec<(i32, bool)> = more.iter().map(|p| (p.plugin.id, p.last)).collect();
    assert_eq!(flags, vec![(1, false), (2, true), (3, true)]);
    let replaced = merge_page(more, 1, vec![plugin(8), plugin(9)]);
    let flags: Vec<(i32, bool)> = replaced.iter().map(|p| (p.plugin.id, p.last)).collect();
    assert_eq!(flags, vec![(1, false), (8, false), (9, true)]);
    let beyond = merge_page(shown.clone(), 7, vec![]);
    assert_eq!(beyond, shown);
    assert_eq!(merge_page(shown, 0, vec![]), Vec::<IndexedPlugin>::new());
}

#[test]
fn tokens_on_screen_and_when_to_load_more() {
    let token = |id: i32| ApiToken {
        id,
        user_id: 1,
        token: vec![],
        name: format!("t{id}"),
        created_at: 0,
        last_used_at: None,
        revoked: false,
    };
    let shown = get_api_tokens(vec![token(1), token(2), token(3)]);
    let flags: Vec<(i32, bool, bool)> =
        shown.iter().map(|t| (t.token.id, t.last, t.plaintext.is_none())).collect();
    assert_eq!(flags, vec![(1, false, true), (2, false, true), (3, true, true)]);
    assert!(get_api_tokens(vec![]).is_empty());
    assert_eq!(AppContext::default(), AppContext { login: None });

    assert!(should_load_more(false, 10, 30, 1000, 900, 60));
    assert!(!should_load_more(false, 10, 30, 1000, 900, 50));
    assert!(!should_load_more(true, 10, 30, 1000, 900, 60));
    assert!(!should_load_more(false, 30, 30, 1000, 900, 60));
    assert!(should_load_more(false, 0, 1, i32::MIN, i32::MAX, i32::MAX));
    assert!(!should_load_more(false, 0, 1, i32::MAX, i32::MIN, i32::MIN));
}

#[test]
fn a_readme_is_rendered_from_markdown() {
    assert_eq!(readme_view(""), ReadmeView::NoReadme);
    assert_eq!(readme_view("# Hi"), ReadmeView::Html("<h1>Hi</h1>\n".to_string()));
    assert_eq!(
        readme_view("a *b* ~~c~~"),
        ReadmeView::Html("<p>a <em>b</em> <del>c</del></p>\n".to_string())
    );
    assert_eq!(readme_view(" "), ReadmeView::Html(String::new()));
}

#[test]
fn a_new_token_goes_to_the_head_and_a_revoked_one_leaves() {
    let token = |id: i32| ApiToken {
        id,
        user_id: 1,
        token: vec![],
        name: format!("t{id}"),
        created_at: 0,
        last_used_at: None,
        revoked: false,
    };
    let shown = get_api_tokens(vec![token(1), token(2)]);
    let made = EncodeApiToken { token: token(3), plaintext: "secret".to_string() };
    let more = add_token(shown.clone(), made);
    let seen: Vec<(i32, bool, Option<&str>)> =
        more.iter().map(|t| (t.token.id, t.last, t.plaintext.as_deref())).collect();
    assert_eq!(seen, vec![(3, false, Some("secret")), (1, false, None), (2, true, None)]);
    let fewer = remove_token(more.clone(), 1);
    let ids: Vec<i32> = fewer.iter().map(|t| t.token.id).collect();
    assert_eq!(ids, vec![3, 2]);
    assert_eq!(remove_token(more.clone(), 9), more);
    assert!(remove_token(vec![], 1).is_empty());
}

#[test]
fn trimming_takes_unicode_white_space_off_both_ends() {
    assert_eq!(bearer("\u{a0}\u{2003}tok en\u{3000}\u{85}\r\n"), "tok en");
    assert_eq!(bearer("\u{200b}tok"), "\u{200b}tok");
    assert_eq!(bearer(""), "");
}

#[test]
fn markdown_that_nests_deep_is_rendered_all_the_same() {
    for text in [
        "> ".repeat(50_000) + "deep",
        "[".repeat(50_000),
        "*".repeat(50_000) + "a" + &"*".repeat(50_000),
        (0..5_000).map(|i| format!("{}- item\n", " ".repeat(2 * i))).collect::<String>(),
        "<div>".repeat(50_000),
        "`".repeat(50_001),
    ] {
        assert!(matches!(readme_view(&text), ReadmeView::Html(_)));
    }
}
