//! Searching the registry: which plugins a query lists, in what order, and
//! what it reports of each.

use crate::db::{
    find_user, has_live_version, user_exists, user_has_id, version_live_of, Database, DbView,
};
use crate::error::{Error, ErrorView};
use crate::models::{
    opt_view, EncodePlugin, EncodePluginView, Plugin, PluginList, PluginView, UserView,
    VersionView,
};
use crate::plugin::{encode_plugin, encoded, latest, latest_of};
use crate::seqs::{first_match, is_ranked_by, is_ranking, rank_descending};
use crate::text::{contains_folded, contains_ignoring_case, same_text};
use vstd::prelude::*;

verus! {

/// The page size where the query names none.
pub const DEFAULT_LIMIT: usize = 10;

/// The greatest page size.
pub const MAX_LIMIT: usize = 100;

/// A search: a free text, a sort order, a page size and where the page
/// starts.
#[derive(Clone, Debug, PartialEq, Eq)]
pub struct SearchQuery {
    pub q: Option<String>,
    pub sort: Option<String>,
    pub limit: Option<usize>,
    pub offset: Option<usize>,
}

/// A [`SearchQuery`] as contracts see it.
pub struct SearchQueryView {
    pub q: Option<Seq<char>>,
    pub sort: Option<Seq<char>>,
    pub limit: Option<usize>,
    pub offset: Option<usize>,
}

impl View for SearchQuery {
    type V = SearchQueryView;

    open spec fn view(&self) -> SearchQueryView {
        SearchQueryView {
            q: opt_view(self.q),
            sort: opt_view(self.sort),
            limit: self.limit,
            offset: self.offset,
        }
    }
}

/// A page of a search as contracts see it.
pub struct PluginListView {
    pub total: usize,
    pub limit: usize,
    pub offset: usize,
    pub plugins: Seq<EncodePluginView>,
}

/// The reports of a list, as contracts see them.
pub open spec fn reports_view(r: Seq<EncodePlugin>) -> Seq<EncodePluginView> {
    r.map_values(|e: EncodePlugin| e@)
}

impl View for PluginList {
    type V = PluginListView;

    open spec fn view(&self) -> PluginListView {
        PluginListView {
            total: self.total,
            limit: self.limit,
            offset: self.offset,
            plugins: reports_view(self.plugins@),
        }
    }
}

/// The page size of a query: what it asks for, ten where it asks for
/// nothing, and never more than a hundred.
pub open spec fn page_limit(q: SearchQueryView) -> usize {
    match q.limit {
        Some(l) => if l < MAX_LIMIT {
            l
        } else {
            MAX_LIMIT
        },
        None => DEFAULT_LIMIT,
    }
}

/// Where the page of a query starts.
pub open spec fn page_offset(q: SearchQueryView) -> usize {
    match q.offset {
        Some(o) => o,
        None => 0,
    }
}

/// Whether a plugin matches a free text: an absent or empty text matches
/// all; otherwise the text must stand, case set aside, in the plugin's name,
/// description or display name.
pub open spec fn matches_text(p: PluginView, q: Option<Seq<char>>) -> bool {
    match q {
        Some(s) => s.len() == 0 || contains_folded(p.name, s) || contains_folded(p.description, s)
            || contains_folded(p.display_name, s),
        None => true,
    }
}

/// The plugins a search considers: those whose owner is known, that have a
/// version that was not yanked, and that match the text.
pub open spec fn searchable(db: DbView, q: Option<Seq<char>>) -> spec_fn(PluginView) -> bool {
    |p: PluginView|
        first_match(db.users, user_has_id(p.user_id)) is Some && first_match(
            db.versions,
            version_live_of(p.id),
        ) is Some && matches_text(p, q)
}

/// What a sort order ranks by: the time of creation for `created`, the time
/// of the last update for `updated`, the downloads otherwise.
pub open spec fn sort_key(sort: Option<Seq<char>>) -> spec_fn(PluginView) -> int {
    |p: PluginView|
        if sort == Some("created"@) {
            p.created_at as int
        } else if sort == Some("updated"@) {
            p.updated_at as int
        } else {
            p.downloads as int
        }
}

/// The part of a list that starts at `offset` and holds at most `limit`
/// elements.
pub open spec fn page_of<T>(s: Seq<T>, offset: int, limit: int) -> Seq<T> {
    if offset >= s.len() {
        Seq::empty()
    } else if offset + limit >= s.len() {
        s.subrange(offset, s.len() as int)
    } else {
        s.subrange(offset, offset + limit)
    }
}

/// A plugin with its owner and its latest version, where it has both.
pub open spec fn row_of(db: DbView, p: PluginView) -> Option<(PluginView, UserView, VersionView)> {
    match (first_match(db.users, user_has_id(p.user_id)), latest_of(db, p.id)) {
        (Some(ui), Some(v)) => Some((p, db.users[ui], v)),
        _ => None,
    }
}

/// The rows of the first `n` plugins of a page; a plugin without a row is
/// passed over.
pub open spec fn rows_of(db: DbView, page: Seq<PluginView>, n: int) -> Seq<
    (PluginView, UserView, VersionView),
>
    decreases n,
{
    if n <= 0 || n > page.len() {
        Seq::empty()
    } else {
        let before = rows_of(db, page, n - 1);
        match row_of(db, page[n - 1]) {
            Some(r) => before.push(r),
            None => before,
        }
    }
}

/// Whether every row can be reported.
pub open spec fn all_encodable(rows: Seq<(PluginView, UserView, VersionView)>) -> bool {
    forall|i: int|
        0 <= i < rows.len() ==> encoded(
            (#[trigger] rows[i]).0,
            rows[i].1.gh_login,
            rows[i].2,
        ) is Some
}

/// The reports of a list of rows.
pub open spec fn reports_of(rows: Seq<(PluginView, UserView, VersionView)>) -> Seq<
    EncodePluginView,
> {
    rows.map_values(
        |r: (PluginView, UserView, VersionView)| encoded(r.0, r.1.gh_login, r.2)->Some_0,
    )
}

/// A search result as contracts see it.
pub open spec fn list_view(r: Result<PluginList, Error>) -> Result<PluginListView, ErrorView> {
    match r {
        Ok(l) => Ok(l@),
        Err(e) => Err(e@),
    }
}

/// Whether `r` answers the query: the plugins considered are ranked by the
/// sort key, greatest first and ties in table order; the page is cut out of
/// that ranking; each plugin of the page is reported with its latest
/// version, and one that has none is left out. `total` counts the plugins
/// considered. The answer is `Internal` where a time of a row on the page
/// cannot be written.
pub open spec fn is_search_result(
    db: DbView,
    q: SearchQueryView,
    r: Result<PluginListView, ErrorView>,
) -> bool {
    let considered = db.plugins.filter(searchable(db, q.q));
    exists|ranked: Seq<PluginView>| #[trigger]
        is_ranked_by(considered, sort_key(q.sort), ranked) && {
            let page = page_of(ranked, page_offset(q) as int, page_limit(q) as int);
            let rows = rows_of(db, page, page.len() as int);
            match r {
                Ok(l) => all_encodable(rows) && l == (PluginListView {
                    total: considered.len() as usize,
                    limit: page_limit(q),
                    offset: page_offset(q),
                    plugins: reports_of(rows),
                }),
                Err(e) => !all_encodable(rows) && e is Internal,
            }
        }
}

/// The plugins of a list, as contracts see them.
pub open spec fn plugin_views(v: Seq<Plugin>) -> Seq<PluginView> {
    v.map_values(|p: Plugin| p@)
}

fn matches(p: &Plugin, q: &Option<String>) -> (r: bool)
    ensures
        r == matches_text(p@, opt_view(*q)),
{
    match q {
        Some(s) => {
            s.as_str().is_empty() || contains_ignoring_case(p.name.as_str(), s.as_str())
                || contains_ignoring_case(p.description.as_str(), s.as_str())
                || contains_ignoring_case(p.display_name.as_str(), s.as_str())
        },
        None => true,
    }
}

fn key_of_plugin(p: &Plugin, sort: &Option<String>) -> (r: i64)
    ensures
        r as int == sort_key(opt_view(*sort))(p@),
{
    match sort {
        Some(s) => {
            if same_text(s.as_str(), "created") {
                p.created_at
            } else if same_text(s.as_str(), "updated") {
                p.updated_at
            } else {
                p.downloads as i64
            }
        },
        None => p.downloads as i64,
    }
}

fn considered(db: &Database, q: &Option<String>) -> (r: Vec<Plugin>)
    ensures
        plugin_views(r@) == db@.plugins.filter(searchable(db@, opt_view(*q))),
{
    let ghost pred = searchable(db@, opt_view(*q));
    let ghost all = db@.plugins;
    let plugins = db.plugins();
    assert(plugin_views(plugins@) == all);
    let mut out: Vec<Plugin> = Vec::new();
    let mut i: usize = 0;
    proof {
        crate::seqs::lemma_filter_start(all, pred);
        assert(plugin_views(out@) =~= all.subrange(0, 0).filter(pred));
    }
    while i < plugins.len()
        invariant
            i <= plugins.len(),
            all == db@.plugins,
            plugin_views(plugins@) == all,
            pred == searchable(db@, opt_view(*q)),
            plugin_views(out@) == all.subrange(0, i as int).filter(pred),
        decreases plugins.len() - i,
    {
        proof {
            crate::seqs::lemma_filter_step(all, pred, i as int);
        }
        let p = &plugins[i];
        assert(all[i as int] == p@);
        if user_exists(db, p.user_id) && has_live_version(db, p.id) && matches(p, q) {
            out.push(p.duplicate());
            assert(plugin_views(out@) =~= all.subrange(0, i as int).filter(pred).push(
                all[i as int],
            ));
        }
        i += 1;
    }
    assert(all.subrange(0, i as int) =~= all);
    out
}

fn ranked(rows: &Vec<Plugin>, sort: &Option<String>) -> (r: Vec<Plugin>)
    ensures
        is_ranked_by(plugin_views(rows@), sort_key(opt_view(*sort)), plugin_views(r@)),
        r.len() == rows.len(),
{
    let ghost key = sort_key(opt_view(*sort));
    let ghost rs = plugin_views(rows@);
    let mut keys: Vec<i64> = Vec::new();
    let mut i: usize = 0;
    while i < rows.len()
        invariant
            i <= rows.len(),
            keys.len() == i,
            key == sort_key(opt_view(*sort)),
            forall|k: int| 0 <= k < i ==> keys@[k] as int == key(rows@[k]@),
        decreases rows.len() - i,
    {
        keys.push(key_of_plugin(&rows[i], sort));
        i += 1;
    }
    assert(rs.map_values(key) =~= keys@.map_values(|k: i64| k as int));
    let order = rank_descending(&keys);
    let ghost ord = order@.map_values(|k: usize| k as int);
    let mut out: Vec<Plugin> = Vec::new();
    let mut k: usize = 0;
    while k < order.len()
        invariant
            k <= order.len(),
            order@.len() == rows@.len(),
            rs == plugin_views(rows@),
            ord == order@.map_values(|k: usize| k as int),
            forall|q: int| 0 <= q < order@.len() ==> 0 <= #[trigger] ord[q] < rows@.len(),
            out@.len() == k,
            forall|q: int| 0 <= q < k ==> (#[trigger] out@[q])@ == rs[ord[q]],
        decreases order.len() - k,
    {
        assert(0 <= ord[k as int] < rows@.len());
        out.push(rows[order[k]].duplicate());
        k += 1;
    }
    proof {
        assert(plugin_views(out@) =~= ord.map_values(|k: int| rs[k]));
        assert(is_ranking(rs.map_values(key), ord));
    }
    out
}

/// Searches the registry. A page never holds more plugins than its limit,
/// and the limit is never above [`MAX_LIMIT`].
pub fn search(query: &SearchQuery, db: &Database) -> (r: Result<PluginList, Error>)
    ensures
        is_search_result(db@, query@, list_view(r)),
        r matches Ok(l) ==> l.plugins.len() <= l.limit <= MAX_LIMIT,
{
    let limit = match query.limit {
        Some(l) => if l < MAX_LIMIT {
            l
        } else {
            MAX_LIMIT
        },
        None => DEFAULT_LIMIT,
    };
    let offset = match query.offset {
        Some(o) => o,
        None => 0,
    };
    let found = considered(db, &query.q);
    let total = found.len();
    let sorted = ranked(&found, &query.sort);
    let ghost rk = plugin_views(sorted@);
    let ghost page = page_of(rk, offset as int, limit as int);
    let end = if offset >= sorted.len() {
        offset
    } else if limit >= sorted.len() - offset {
        sorted.len()
    } else {
        offset + limit
    };
    let mut plugins: Vec<EncodePlugin> = Vec::new();
    let ghost mut rows = Seq::<(PluginView, UserView, VersionView)>::empty();
    let mut i: usize = offset;
    while i < end
        invariant
            offset <= i,
            offset < end ==> i <= end && end <= sorted.len(),
            rk == plugin_views(sorted@),
            limit == page_limit(query@),
            offset == page_offset(query@),
            is_ranked_by(
                db@.plugins.filter(searchable(db@, query@.q)),
                sort_key(query@.sort),
                rk,
            ),
            page == page_of(rk, offset as int, limit as int),
            offset < end ==> page == rk.subrange(offset as int, end as int),
            rows == rows_of(db@, page, i - offset),
            rows.len() <= i - offset,
            offset < end ==> end - offset <= limit,
            limit <= MAX_LIMIT,
            plugins.len() == rows.len(),
            all_encodable(rows),
            reports_view(plugins@) == reports_of(rows),
        decreases end - i,
    {
        let p = &sorted[i];
        assert(page[i - offset] == p@);
        let ghost before = rows;
        let ghost reports = reports_view(plugins@);
        match (find_user(db, p.user_id), latest(db, p.id)) {
            (Ok(u), Some(v)) => {
                proof {
                    rows = before.push((p@, u@, v@));
                }
                match encode_plugin(p, u.gh_login.as_str(), &v) {
                    Some(e) => {
                        plugins.push(e);
                        assert(reports_view(plugins@) =~= reports.push(e@));
                        assert(reports_of(rows) =~= reports_of(before).push(e@));
                    },
                    None => {
                        proof {
                            assert(rows[rows.len() - 1] == (p@, u@, v@));
                            lemma_rows_grow(db@, page, i - offset + 1, page.len() as int);
                            let all = rows_of(db@, page, page.len() as int);
                            assert(all[rows.len() - 1] == rows[rows.len() - 1]);
                            assert(!all_encodable(all));
                        }
                        return Err(Error::Internal);
                    },
                }
            },
            _ => {},
        }
        i += 1;
    }
    proof {
        if offset >= end {
            assert(page =~= Seq::<PluginView>::empty());
        }
    }
    Ok(PluginList { total, limit, offset, plugins })
}

/// The rows of a longer part of a page begin with the rows of a shorter one.
pub proof fn lemma_rows_grow(db: DbView, page: Seq<PluginView>, n: int, m: int)
    requires
        0 <= n <= m <= page.len(),
    ensures
        rows_of(db, page, n).len() <= rows_of(db, page, m).len(),
        forall|k: int|
            0 <= k < rows_of(db, page, n).len() ==> #[trigger] rows_of(db, page, m)[k] == rows_of(
                db,
                page,
                n,
            )[k],
    decreases m - n,
{
    if n < m {
        lemma_rows_grow(db, page, n, m - 1);
    }
}


/// A query has one answer and no other.
pub proof fn lemma_search_result_is_unique(
    db: DbView,
    q: SearchQueryView,
    a: Result<PluginListView, ErrorView>,
    b: Result<PluginListView, ErrorView>,
)
    requires
        is_search_result(db, q, a),
        is_search_result(db, q, b),
    ensures
        a == b,
{
    let considered = db.plugins.filter(searchable(db, q.q));
    let ra = choose|ranked: Seq<PluginView>| #[trigger]
        is_ranked_by(considered, sort_key(q.sort), ranked) && {
            let page = page_of(ranked, page_offset(q) as int, page_limit(q) as int);
            let rows = rows_of(db, page, page.len() as int);
            match a {
                Ok(l) => all_encodable(rows) && l == (PluginListView {
                    total: considered.len() as usize,
                    limit: page_limit(q),
                    offset: page_offset(q),
                    plugins: reports_of(rows),
                }),
                Err(e) => !all_encodable(rows) && e is Internal,
            }
        };
    let rb = choose|ranked: Seq<PluginView>| #[trigger]
        is_ranked_by(considered, sort_key(q.sort), ranked) && {
            let page = page_of(ranked, page_offset(q) as int, page_limit(q) as int);
            let rows = rows_of(db, page, page.len() as int);
            match b {
                Ok(l) => all_encodable(rows) && l == (PluginListView {
                    total: considered.len() as usize,
                    limit: page_limit(q),
                    offset: page_offset(q),
                    plugins: reports_of(rows),
                }),
                Err(e) => !all_encodable(rows) && e is Internal,
            }
        };
    crate::seqs::lemma_ranked_by_is_unique(considered, sort_key(q.sort), ra, rb);
}

} // verus!
