//! What the browsing front-end decides: the URL of a search, how a page of
//! results joins the list on screen, and when to fetch the next page.

use crate::models::{ApiToken, EncodePlugin};
use vstd::prelude::*;
use vstd::string::*;

verus! {

/// What the front-end knows of the visitor.
#[derive(Clone, Debug, PartialEq, Eq)]
pub struct AppContext {
    pub login: Option<String>,
}

impl Default for AppContext {
    fn default() -> (r: AppContext)
        ensures
            r.login is None,
    {
        AppContext { login: None }
    }
}

/// A plugin on screen; `last` marks the end of the page it came with.
#[derive(Clone, Debug, PartialEq, Eq)]
pub struct IndexedPlugin {
    pub plugin: EncodePlugin,
    pub last: bool,
}

/// A token on screen; `last` marks the end of the list, and `plaintext` is
/// the secret of a token that was just made.
#[derive(Clone, Debug, PartialEq, Eq)]
pub struct IndexedApiToken {
    pub token: ApiToken,
    pub last: bool,
    pub plaintext: Option<String>,
}

/// The path of the search endpoint.
pub const PLUGINS_PATH: &'static str = "/api/v1/plugins";

/// One parameter of a query string, led in by `lead`; nothing where it has
/// no value.
pub open spec fn param_of(lead: Seq<char>, name: Seq<char>, value: Option<Seq<char>>) -> Seq<char> {
    match value {
        Some(v) => lead + name + "="@ + v,
        None => Seq::empty(),
    }
}

/// What leads a parameter in: `?` for the first, `&` after it.
pub open spec fn lead_of(first: bool) -> Seq<char> {
    if first {
        "?"@
    } else {
        "&"@
    }
}

/// The URL of a search: the endpoint, then `q`, `sort` and `offset` where
/// they have a value, in that order.
pub open spec fn plugins_url_of(
    q: Option<Seq<char>>,
    sort: Option<Seq<char>>,
    offset: Option<Seq<char>>,
) -> Seq<char> {
    PLUGINS_PATH@ + param_of(lead_of(true), "q"@, q) + param_of(lead_of(q is None), "sort"@, sort)
        + param_of(lead_of(q is None && sort is None), "offset"@, offset)
}

fn add_param(url: &mut String, first: bool, name: &str, value: Option<&str>)
    ensures
        final(url)@ == old(url)@ + param_of(
            lead_of(first),
            name@,
            crate::session::opt_str_view(value),
        ),
{
    match value {
        Some(v) => {
            let ghost before = url@;
            if first {
                url.append("?");
            } else {
                url.append("&");
            }
            url.append(name);
            url.append("=");
            url.append(v);
            assert(url@ =~= before + (lead_of(first) + name@ + "="@ + v@));
        },
        None => {
            assert(url@ + Seq::<char>::empty() =~= url@);
        },
    }
}

/// The URL of a search.
pub fn get_plugins(q: Option<&str>, sort: Option<&str>, offset: Option<&str>) -> (r: String)
    ensures
        r@ == plugins_url_of(
            crate::session::opt_str_view(q),
            crate::session::opt_str_view(sort),
            crate::session::opt_str_view(offset),
        ),
{
    let mut url = PLUGINS_PATH.to_owned();
    add_param(&mut url, true, "q", q);
    add_param(&mut url, q.is_none(), "sort", sort);
    add_param(&mut url, q.is_none() && sort.is_none(), "offset", offset);
    url
}

/// The list on screen once a page that starts at `offset` has come in: what
/// was on screen before `offset`, then the page, its last plugin marked.
pub open spec fn is_merged(
    current: Seq<IndexedPlugin>,
    offset: int,
    page: Seq<EncodePlugin>,
    out: Seq<IndexedPlugin>,
) -> bool {
    let kept = if offset < current.len() {
        offset
    } else {
        current.len() as int
    };
    &&& out.len() == kept + page.len()
    &&& forall|i: int| 0 <= i < kept ==> #[trigger] out[i] == current[i]
    &&& forall|i: int|
        0 <= i < page.len() ==> (#[trigger] out[kept + i]).plugin == page[i] && out[kept + i].last
            == (i + 1 == page.len())
}

/// Joins a page of results to the list on screen.
pub fn merge_page(current: Vec<IndexedPlugin>, offset: usize, page: Vec<EncodePlugin>) -> (r: Vec<
    IndexedPlugin,
>)
    ensures
        is_merged(current@, offset as int, page@, r@),
{
    let mut out = current;
    out.truncate(offset);
    let kept = out.len();
    let n = page.len();
    let mut page = page;
    let ghost all = page@;
    let mut tail: Vec<IndexedPlugin> = Vec::new();
    while page.len() > 0
        invariant
            page.len() <= n,
            n == all.len(),
            page@ == all.subrange(0, page.len() as int),
            tail.len() == n - page.len(),
            forall|k: int|
                0 <= k < tail.len() ==> (#[trigger] tail@[k]).plugin == all[n - 1 - k]
                    && tail@[k].last == (k == 0),
        decreases page.len(),
    {
        let last = page.len() == n;
        let ghost before = page@;
        let plugin = page.pop().unwrap();
        assert(page@ =~= all.subrange(0, page.len() as int));
        tail.push(IndexedPlugin { plugin, last });
    }
    while tail.len() > 0
        invariant
            tail.len() <= n,
            n == all.len(),
            out.len() == kept + (n - tail.len()),
            forall|k: int|
                0 <= k < tail.len() ==> (#[trigger] tail@[k]).plugin == all[n - 1 - k]
                    && tail@[k].last == (k == 0),
            forall|i: int| 0 <= i < kept ==> #[trigger] out@[i] == current@[i],
            forall|i: int|
                0 <= i < n - tail.len() ==> (#[trigger] out@[kept + i]).plugin == all[i]
                    && out@[kept + i].last == (i + 1 == n),
        decreases tail.len(),
    {
        let item = tail.pop().unwrap();
        out.push(item);
    }
    out
}

/// The tokens of a list as they go on screen: in order, the last one
/// marked, none with a secret.
pub fn get_api_tokens(tokens: Vec<ApiToken>) -> (r: Vec<IndexedApiToken>)
    ensures
        r.len() == tokens.len(),
        forall|i: int|
            0 <= i < r.len() ==> (#[trigger] r@[i]).token == tokens@[i] && r@[i].last == (i + 1
                == r.len()) && r@[i].plaintext is None,
{
    let n = tokens.len();
    let mut rest = tokens;
    let ghost all = rest@;
    let mut tail: Vec<IndexedApiToken> = Vec::new();
    while rest.len() > 0
        invariant
            rest.len() <= n,
            n == all.len(),
            rest@ == all.subrange(0, rest.len() as int),
            tail.len() == n - rest.len(),
            forall|k: int|
                0 <= k < tail.len() ==> (#[trigger] tail@[k]).token == all[n - 1 - k]
                    && tail@[k].last == (k == 0) && tail@[k].plaintext is None,
        decreases rest.len(),
    {
        let last = rest.len() == n;
        let token = rest.pop().unwrap();
        assert(rest@ =~= all.subrange(0, rest.len() as int));
        tail.push(IndexedApiToken { token, last, plaintext: None });
    }
    let mut out: Vec<IndexedApiToken> = Vec::new();
    while tail.len() > 0
        invariant
            tail.len() <= n,
            n == all.len(),
            out.len() == n - tail.len(),
            forall|k: int|
                0 <= k < tail.len() ==> (#[trigger] tail@[k]).token == all[n - 1 - k]
                    && tail@[k].last == (k == 0) && tail@[k].plaintext is None,
            forall|i: int|
                0 <= i < out.len() ==> (#[trigger] out@[i]).token == all[i] && out@[i].last == (i
                    + 1 == n) && out@[i].plaintext is None,
        decreases tail.len(),
    {
        let item = tail.pop().unwrap();
        out.push(item);
    }
    out
}

/// The HTML that `pulldown_cmark` renders a Markdown text to, with all its
/// extensions on.
pub uninterp spec fn html_of(markdown: Seq<char>) -> Seq<char>;

/// Runs `pulldown_cmark::Parser::new_ext` with `Options::all()` over `text`
/// and writes the events out with `pulldown_cmark::html::push_html`.
/// Trusted: the result is the HTML the crate renders for `text`, a function
/// of `text` alone.
#[verifier::external_body]
fn render_markdown(text: &str) -> (r: String)
    ensures
        r@ == html_of(text@),
{
    let parser = pulldown_cmark::Parser::new_ext(text, pulldown_cmark::Options::all());
    let mut html = String::new();
    pulldown_cmark::html::push_html(&mut html, parser);
    html
}

/// What the page of a plugin shows for its readme.
#[derive(Clone, Debug, PartialEq, Eq)]
pub enum ReadmeView {
    /// The plugin has no readme: the page says so.
    NoReadme,
    /// The readme as HTML.
    Html(String),
}

/// What to show for a readme: a note where the text is empty, otherwise the
/// text rendered from Markdown.
pub fn readme_view(text: &str) -> (r: ReadmeView)
    ensures
        text@.len() == 0 ==> r is NoReadme,
        text@.len() > 0 ==> (r matches ReadmeView::Html(h) && h@ == html_of(text@)),
{
    if text.is_empty() {
        ReadmeView::NoReadme
    } else {
        ReadmeView::Html(render_markdown(text))
    }
}

/// The list on screen once a token was made: the new token with its secret
/// at the head, the others behind it as they were.
pub fn add_token(tokens: Vec<IndexedApiToken>, made: crate::models::EncodeApiToken) -> (r: Vec<
    IndexedApiToken,
>)
    ensures
        r.len() == tokens.len() + 1,
        r@[0].token == made.token,
        r@[0].plaintext == Some(made.plaintext),
        !r@[0].last,
        forall|i: int| 0 <= i < tokens.len() ==> #[trigger] r@[i + 1] == tokens@[i],
{
    let mut out = tokens;
    out.insert(0, IndexedApiToken { token: made.token, last: false, plaintext: Some(made.plaintext) });
    out
}

/// The list on screen once the token with the given id was revoked: without
/// the first token of that id, the others as they were.
pub fn remove_token(tokens: Vec<IndexedApiToken>, id: i32) -> (r: Vec<IndexedApiToken>)
    ensures
        match crate::seqs::first_match(tokens@, shown_token_is(id)) {
            Some(i) => r@ == tokens@.remove(i),
            None => r@ == tokens@,
        },
{
    let mut out = tokens;
    let mut i: usize = 0;
    while i < out.len()
        invariant
            i <= out.len(),
            out@ == tokens@,
            forall|j: int| 0 <= j < i ==> !shown_token_is(id)(#[trigger] out@[j]),
        decreases out.len() - i,
    {
        if out[i].token.id == id {
            proof {
                crate::seqs::lemma_first_match_found(tokens@, shown_token_is(id), 0, i as int);
            }
            out.remove(i);
            return out;
        }
        i += 1;
    }
    proof {
        crate::seqs::lemma_first_match_absent(tokens@, shown_token_is(id), 0);
    }
    out
}

/// The token on screen with a given id.
pub open spec fn shown_token_is(id: i32) -> spec_fn(IndexedApiToken) -> bool {
    |t: IndexedApiToken| t.token.id == id
}

/// How near the end of the list a scroll must come before more is fetched,
/// in pixels.
pub const SCROLL_MARGIN: i64 = 50;

/// Whether to fetch the next page: nothing is being fetched, the list is
/// not complete, and less than [`SCROLL_MARGIN`] pixels of it lie below the
/// window.
pub fn should_load_more(
    loading: bool,
    shown: usize,
    total: usize,
    scroll_height: i32,
    scroll_top: i32,
    client_height: i32,
) -> (r: bool)
    ensures
        r == (!loading && shown != total && scroll_height - scroll_top - client_height
            < SCROLL_MARGIN),
{
    let below: i64 = scroll_height as i64 - scroll_top as i64 - client_height as i64;
    !loading && shown != total && below < SCROLL_MARGIN
}

} // verus!
