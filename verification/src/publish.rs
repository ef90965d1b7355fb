//! The publish pipeline: from an uploaded archive to stored artifacts and
//! committed metadata.
//!
//! The pipeline is linear and stops at the first failure. Uploads of side
//! assets that were made before a later failure stay in the artifact store;
//! metadata is committed last, plugin and version together.

use crate::archive::{
    pack, tree_get, tree_of_upload, tree_put, tree_wf, unpack, upload_of_tree, FileEntryView,
    FileTree,
};
use crate::db::{
    commit_release, find_api_token, find_user, user_has_id, Database, DbView, NewPlugin,
    NewPluginView,
};
use crate::error::{AssetRole, Credential, Error, ErrorView, ManifestFault, ThemeKind};
use crate::manifest::{
    kinds_declared, manifest_of, strings_view, theme_icons, theme_icons_of, Manifest,
    ManifestView,
};
use crate::models::opt_view;
use crate::paths::{declared_dir, declared_target, directory_of, resolve_declared};
use crate::seqs::first_match;
use crate::storage::{
    artifact_key, image_kind, image_kind_of, key_of, mime, mime_of, objects_view, store_put,
    store_put_all, store_wf, Artifact, ArtifactStore, Object, ObjectView,
};
use crate::text::{copy_bytes, fields_view, lowercase_of, to_lowercase};
use crate::token::digest_of;
use crate::version::{semver_of, SemVer};
use vstd::prelude::*;
use vstd::string::*;
use vstd::utf8::encode_utf8;

verus! {

/// The path of the manifest in a package: `volt.toml`.
pub open spec fn manifest_path() -> Seq<u8> {
    seq![118u8, 111, 108, 116, 46, 116, 111, 109, 108]
}

/// The path of the readme in a package: `README.md`.
pub open spec fn readme_path() -> Seq<u8> {
    seq![82u8, 69, 65, 68, 77, 69, 46, 109, 100]
}

fn manifest_path_bytes() -> (r: Vec<u8>)
    ensures
        r@ == manifest_path(),
{
    let r = vec![118u8, 111, 108, 116, 46, 116, 111, 109, 108];
    assert(r@ =~= manifest_path());
    r
}

fn readme_path_bytes() -> (r: Vec<u8>)
    ensures
        r@ == readme_path(),
{
    let r = vec![82u8, 69, 65, 68, 77, 69, 46, 109, 100];
    assert(r@ =~= readme_path());
    r
}

/// What a publish has done so far: the uploads made, in order, and the
/// files staged for the archive that will be stored.
pub struct StageView {
    pub uploads: Seq<ObjectView>,
    pub staged: Seq<FileEntryView>,
}

impl StageView {
    /// With one more file staged, in place of one of the same path.
    pub open spec fn with_file(self, path: Seq<u8>, data: Seq<u8>) -> StageView {
        StageView { staged: tree_put(self.staged, path, data), ..self }
    }

    /// With one more upload made.
    pub open spec fn with_upload(self, o: ObjectView) -> StageView {
        StageView { uploads: self.uploads.push(o), ..self }
    }
}

/// The file a declared path names, read from directory `dir`: its canonical
/// path and its contents, where the package has it.
pub open spec fn asset_at(tree: Seq<FileEntryView>, dir: Seq<Seq<u8>>, declared: Seq<char>) -> Option<
    (Seq<u8>, Seq<u8>),
> {
    match declared_target(dir, encode_utf8(declared)) {
        Some(p) => match tree_get(tree, p) {
            Some(d) => Some((p, d)),
            None => None,
        },
        None => None,
    }
}

/// Stage one file that must be there.
pub open spec fn stage_required(
    tree: Seq<FileEntryView>,
    st: StageView,
    declared: Seq<char>,
    role: AssetRole,
) -> (StageView, Result<(), ErrorView>) {
    match asset_at(tree, Seq::empty(), declared) {
        Some((p, d)) => (st.with_file(p, d), Ok(())),
        None => (st, Err(ErrorView::MissingAsset { role, path: declared })),
    }
}

/// Stage the first `n` colour themes, stopping at the first that is missing.
pub open spec fn stage_colors(
    tree: Seq<FileEntryView>,
    st: StageView,
    themes: Seq<Seq<char>>,
    n: int,
) -> (StageView, Result<(), ErrorView>)
    decreases n,
{
    if n <= 0 || n > themes.len() {
        (st, Ok(()))
    } else {
        let (s1, r1) = stage_colors(tree, st, themes, n - 1);
        match r1 {
            Err(e) => (s1, Err(e)),
            Ok(_) => stage_required(tree, s1, themes[n - 1], AssetRole::ColorTheme),
        }
    }
}

/// Stage the first `n` icons of a theme that lies in directory `dir`: each
/// is uploaded under the version's icon key and staged, stopping at the
/// first that is missing.
pub open spec fn stage_icons(
    tree: Seq<FileEntryView>,
    st: StageView,
    icon_key: Seq<char>,
    dir: Seq<Seq<u8>>,
    icons: Seq<Seq<char>>,
    n: int,
) -> (StageView, Result<(), ErrorView>)
    decreases n,
{
    if n <= 0 || n > icons.len() {
        (st, Ok(()))
    } else {
        let (s1, r1) = stage_icons(tree, st, icon_key, dir, icons, n - 1);
        match r1 {
            Err(e) => (s1, Err(e)),
            Ok(_) => match asset_at(tree, dir, icons[n - 1]) {
                Some((p, d)) => (
                    s1.with_upload(ObjectView { key: icon_key, bytes: d, content_type: None }).with_file(
                        p,
                        d,
                    ),
                    Ok(()),
                ),
                None => (
                    s1,
                    Err(ErrorView::MissingAsset { role: AssetRole::Icon, path: icons[n - 1] }),
                ),
            },
        }
    }
}

/// Stage one icon theme: the theme file, then every icon it refers to.
pub open spec fn stage_icon_theme(
    tree: Seq<FileEntryView>,
    st: StageView,
    icon_key: Seq<char>,
    theme: Seq<char>,
) -> (StageView, Result<(), ErrorView>) {
    match (asset_at(tree, Seq::empty(), theme), declared_dir(encode_utf8(theme))) {
        (Some((p, d)), Some(dir)) => {
            let s1 = st.with_file(p, d);
            match theme_icons_of(d) {
                Some(icons) => stage_icons(tree, s1, icon_key, dir, icons, icons.len() as int),
                None => (s1, Err(ErrorView::BadTheme { path: theme })),
            }
        },
        _ => (st, Err(ErrorView::MissingAsset { role: AssetRole::IconTheme, path: theme })),
    }
}

/// Stage the first `n` icon themes, stopping at the first failure.
pub open spec fn stage_icon_themes(
    tree: Seq<FileEntryView>,
    st: StageView,
    icon_key: Seq<char>,
    themes: Seq<Seq<char>>,
    n: int,
) -> (StageView, Result<(), ErrorView>)
    decreases n,
{
    if n <= 0 || n > themes.len() {
        (st, Ok(()))
    } else {
        let (s1, r1) = stage_icon_themes(tree, st, icon_key, themes, n - 1);
        match r1 {
            Err(e) => (s1, Err(e)),
            Ok(_) => stage_icon_theme(tree, s1, icon_key, themes[n - 1]),
        }
    }
}

/// Stage what the manifest's kind asks for: the module of a wasm plugin, or
/// else the colour themes, or else the icon themes. An empty theme list is
/// refused as such, and a manifest with none of the three is no plugin.
pub open spec fn stage_kind(
    tree: Seq<FileEntryView>,
    st: StageView,
    icon_key: Seq<char>,
    m: ManifestView,
) -> (StageView, Result<(), ErrorView>) {
    match (m.wasm, m.color_themes, m.icon_themes) {
        (Some(w), _, _) => stage_required(tree, st, w, AssetRole::Wasm),
        (None, Some(themes), _) => if themes.len() == 0 {
            (st, Err(ErrorView::NoThemes(ThemeKind::Color)))
        } else {
            stage_colors(tree, st, themes, themes.len() as int)
        },
        (None, None, Some(themes)) => if themes.len() == 0 {
            (st, Err(ErrorView::NoThemes(ThemeKind::Icon)))
        } else {
            stage_icon_themes(tree, st, icon_key, themes, themes.len() as int)
        },
        (None, None, None) => (st, Err(ErrorView::NotAValidPlugin)),
    }
}

/// Upload and stage the readme, where the package has one at its root.
pub open spec fn stage_readme(tree: Seq<FileEntryView>, st: StageView, readme_key: Seq<char>) -> StageView {
    match tree_get(tree, readme_path()) {
        Some(d) => st.with_upload(
            ObjectView { key: readme_key, bytes: d, content_type: None },
        ).with_file(readme_path(), d),
        None => st,
    }
}

/// Upload and stage the plugin's icon, where the manifest names one and the
/// package has it. The upload carries the content type that the file's
/// extension announces.
pub open spec fn stage_icon(
    tree: Seq<FileEntryView>,
    st: StageView,
    icon_key: Seq<char>,
    icon: Option<Seq<char>>,
) -> StageView {
    match icon {
        Some(i) => match asset_at(tree, Seq::empty(), i) {
            Some((p, d)) => st.with_upload(
                ObjectView {
                    key: icon_key,
                    bytes: d,
                    content_type: Some(mime_of(image_kind_of(p))),
                },
            ).with_file(p, d),
            None => st,
        },
        None => st,
    }
}

/// What publishing a package comes to, short of the archive and the
/// metadata: the side uploads in order, the staged files, and either whether
/// the plugin is a wasm plugin or why the package is refused.
pub struct PlanView {
    pub uploads: Seq<ObjectView>,
    pub staged: Seq<FileEntryView>,
    pub outcome: Result<bool, ErrorView>,
}

/// The plan for a package with manifest `m`, published by `login`, where
/// `rendered` is staged in the manifest's place. Only that and the files the
/// manifest refers to are staged.
pub open spec fn plan_with(
    tree: Seq<FileEntryView>,
    m: ManifestView,
    login: Seq<char>,
    rendered: Seq<u8>,
) -> PlanView {
    let icon_key = key_of(login, m.name, m.version, Artifact::Icon);
    let readme_key = key_of(login, m.name, m.version, Artifact::Readme);
    let st0 = StageView {
        uploads: Seq::empty(),
        staged: tree_put(Seq::empty(), manifest_path(), rendered),
    };
    let (st1, r1) = stage_kind(tree, st0, icon_key, m);
    match r1 {
        Err(e) => PlanView { uploads: st1.uploads, staged: st1.staged, outcome: Err(e) },
        Ok(_) => {
            let st2 = stage_readme(tree, st1, readme_key);
            let st3 = stage_icon(tree, st2, icon_key, m.icon);
            PlanView { uploads: st3.uploads, staged: st3.staged, outcome: Ok(m.wasm is Some) }
        },
    }
}

/// The plan for a package, the manifest left aside: its place among the
/// staged files is kept by an empty file.
pub open spec fn plan_of(tree: Seq<FileEntryView>, m: ManifestView, login: Seq<char>) -> PlanView {
    plan_with(tree, m, login, Seq::empty())
}

/// The pipeline's working state.
pub struct Stage {
    pub uploads: Vec<Object>,
    pub staged: FileTree,
}

impl View for Stage {
    type V = StageView;

    open spec fn view(&self) -> StageView {
        StageView { uploads: objects_view(self.uploads@), staged: self.staged@ }
    }
}

/// A plan as the pipeline hands it on.
pub struct Plan {
    pub uploads: Vec<Object>,
    pub staged: FileTree,
    pub outcome: Result<bool, Error>,
}

impl View for Plan {
    type V = PlanView;

    open spec fn view(&self) -> PlanView {
        PlanView {
            uploads: objects_view(self.uploads@),
            staged: self.staged@,
            outcome: match self.outcome {
                Ok(w) => Ok(w),
                Err(e) => Err(e@),
            },
        }
    }
}

/// A step's result as contracts see it.
pub open spec fn step_view(r: Result<(), Error>) -> Result<(), ErrorView> {
    match r {
        Ok(_) => Ok(()),
        Err(e) => Err(e@),
    }
}

fn find_asset(tree: &FileTree, dir: &Vec<Vec<u8>>, declared: &str) -> (r: Option<(Vec<u8>, Vec<u8>)>)
    ensures
        match r {
            Some(f) => asset_at(tree@, fields_view(dir@), declared@) == Some((f.0@, f.1@)),
            None => asset_at(tree@, fields_view(dir@), declared@) is None,
        },
{
    match resolve_declared(dir, declared.as_bytes()) {
        Some(p) => match tree.get(p.as_slice()) {
            Some(d) => {
                let data = copy_bytes(d.as_slice());
                Some((p, data))
            },
            None => None,
        },
        None => None,
    }
}

impl Stage {
    fn add_file(&mut self, path: Vec<u8>, data: Vec<u8>)
        requires
            tree_wf(old(self).staged@),
        ensures
            final(self)@ == old(self)@.with_file(path@, data@),
            tree_wf(final(self).staged@),
    {
        self.staged.put(path, data);
    }

    fn add_upload(&mut self, o: Object)
        ensures
            final(self)@ == old(self)@.with_upload(o@),
            final(self).staged@ == old(self).staged@,
    {
        let ghost before = objects_view(self.uploads@);
        self.uploads.push(o);
        assert(objects_view(self.uploads@) =~= before.push(o@));
    }

    fn require(&mut self, tree: &FileTree, declared: &str, role: AssetRole) -> (r: Result<(), Error>)
        requires
            tree_wf(old(self).staged@),
        ensures
            (final(self)@, step_view(r)) == stage_required(tree@, old(self)@, declared@, role),
            tree_wf(final(self).staged@),
    {
        let root: Vec<Vec<u8>> = Vec::new();
        assert(fields_view(root@) =~= Seq::<Seq<u8>>::empty());
        match find_asset(tree, &root, declared) {
            Some((p, d)) => {
                self.add_file(p, d);
                Ok(())
            },
            None => Err(Error::MissingAsset { role, path: declared.to_owned() }),
        }
    }

    fn colors(&mut self, tree: &FileTree, themes: &Vec<String>) -> (r: Result<(), Error>)
        requires
            tree_wf(old(self).staged@),
        ensures
            (final(self)@, step_view(r)) == stage_colors(
                tree@,
                old(self)@,
                strings_view(themes@),
                themes.len() as int,
            ),
            tree_wf(final(self).staged@),
    {
        let ghost ts = strings_view(themes@);
        let ghost st0 = self@;
        let mut i: usize = 0;
        while i < themes.len()
            invariant
                i <= themes.len(),
                ts == strings_view(themes@),
                st0 == old(self)@,
                tree_wf(self.staged@),
                (self@, Ok::<(), ErrorView>(())) == stage_colors(tree@, st0, ts, i as int),
            decreases themes.len() - i,
        {
            assert(ts[i as int] == themes@[i as int]@);
            let ghost before = self@;
            assert(stage_colors(tree@, st0, ts, i as int + 1) == stage_required(
                tree@,
                before,
                ts[i as int],
                AssetRole::ColorTheme,
            ));
            match self.require(tree, themes[i].as_str(), AssetRole::ColorTheme) {
                Ok(_) => {},
                Err(e) => {
                    proof {
                        lemma_colors_stuck(tree@, st0, ts, i as int + 1, themes.len() as int);
                    }
                    return Err(e);
                },
            }
            i += 1;
        }
        Ok(())
    }

    fn icons(
        &mut self,
        tree: &FileTree,
        icon_key: &str,
        dir: &Vec<Vec<u8>>,
        icons: &Vec<String>,
    ) -> (r: Result<(), Error>)
        requires
            tree_wf(old(self).staged@),
        ensures
            (final(self)@, step_view(r)) == stage_icons(
                tree@,
                old(self)@,
                icon_key@,
                fields_view(dir@),
                strings_view(icons@),
                icons.len() as int,
            ),
            tree_wf(final(self).staged@),
    {
        let ghost is = strings_view(icons@);
        let ghost st0 = self@;
        let ghost d = fields_view(dir@);
        let mut i: usize = 0;
        while i < icons.len()
            invariant
                i <= icons.len(),
                is == strings_view(icons@),
                d == fields_view(dir@),
                st0 == old(self)@,
                tree_wf(self.staged@),
                (self@, Ok::<(), ErrorView>(())) == stage_icons(
                    tree@,
                    st0,
                    icon_key@,
                    d,
                    is,
                    i as int,
                ),
            decreases icons.len() - i,
        {
            assert(is[i as int] == icons@[i as int]@);
            let ghost before = self@;
            assert(stage_icons(tree@, st0, icon_key@, d, is, i as int + 1) == match asset_at(
                tree@,
                d,
                is[i as int],
            ) {
                Some((p, data)) => (
                    before.with_upload(
                        ObjectView { key: icon_key@, bytes: data, content_type: None },
                    ).with_file(p, data),
                    Ok::<(), ErrorView>(()),
                ),
                None => (
                    before,
                    Err::<(), ErrorView>(
                        ErrorView::MissingAsset { role: AssetRole::Icon, path: is[i as int] },
                    ),
                ),
            });
            match find_asset(tree, dir, icons[i].as_str()) {
                Some((p, data)) => {
                    self.add_upload(
                        Object {
                            key: icon_key.to_owned(),
                            bytes: copy_bytes(data.as_slice()),
                            content_type: None,
                        },
                    );
                    self.add_file(p, data);
                },
                None => {
                    proof {
                        lemma_icons_stuck(tree@, st0, icon_key@, d, is, i as int + 1, icons.len() as int);
                    }
                    return Err(
                        Error::MissingAsset { role: AssetRole::Icon, path: icons[i].clone() },
                    );
                },
            }
            i += 1;
        }
        Ok(())
    }

    fn icon_theme(&mut self, tree: &FileTree, icon_key: &str, theme: &str) -> (r: Result<(), Error>)
        requires
            tree_wf(old(self).staged@),
        ensures
            (final(self)@, step_view(r)) == stage_icon_theme(tree@, old(self)@, icon_key@, theme@),
            tree_wf(final(self).staged@),
    {
        let root: Vec<Vec<u8>> = Vec::new();
        assert(fields_view(root@) =~= Seq::<Seq<u8>>::empty());
        match (find_asset(tree, &root, theme), directory_of(theme.as_bytes())) {
            (Some((p, d)), Some(dir)) => {
                let icons = theme_icons(d.as_slice());
                self.add_file(p, d);
                match icons {
                    Some(icons) => self.icons(tree, icon_key, &dir, &icons),
                    None => Err(Error::BadTheme { path: theme.to_owned() }),
                }
            },
            _ => Err(Error::MissingAsset { role: AssetRole::IconTheme, path: theme.to_owned() }),
        }
    }

    fn icon_themes(&mut self, tree: &FileTree, icon_key: &str, themes: &Vec<String>) -> (r: Result<
        (),
        Error,
    >)
        requires
            tree_wf(old(self).staged@),
        ensures
            (final(self)@, step_view(r)) == stage_icon_themes(
                tree@,
                old(self)@,
                icon_key@,
                strings_view(themes@),
                themes.len() as int,
            ),
            tree_wf(final(self).staged@),
    {
        let ghost ts = strings_view(themes@);
        let ghost st0 = self@;
        let mut i: usize = 0;
        while i < themes.len()
            invariant
                i <= themes.len(),
                ts == strings_view(themes@),
                st0 == old(self)@,
                tree_wf(self.staged@),
                (self@, Ok::<(), ErrorView>(())) == stage_icon_themes(
                    tree@,
                    st0,
                    icon_key@,
                    ts,
                    i as int,
                ),
            decreases themes.len() - i,
        {
            assert(ts[i as int] == themes@[i as int]@);
            let ghost before = self@;
            assert(stage_icon_themes(tree@, st0, icon_key@, ts, i as int + 1) == stage_icon_theme(
                tree@,
                before,
                icon_key@,
                ts[i as int],
            ));
            match self.icon_theme(tree, icon_key, themes[i].as_str()) {
                Ok(_) => {},
                Err(e) => {
                    proof {
                        lemma_icon_themes_stuck(
                            tree@,
                            st0,
                            icon_key@,
                            ts,
                            i as int + 1,
                            themes.len() as int,
                        );
                    }
                    return Err(e);
                },
            }
            i += 1;
        }
        Ok(())
    }

    fn kind(&mut self, tree: &FileTree, icon_key: &str, m: &Manifest) -> (r: Result<(), Error>)
        requires
            tree_wf(old(self).staged@),
        ensures
            (final(self)@, step_view(r)) == stage_kind(tree@, old(self)@, icon_key@, m@),
            tree_wf(final(self).staged@),
    {
        match (&m.wasm, &m.color_themes, &m.icon_themes) {
            (Some(w), _, _) => self.require(tree, w.as_str(), AssetRole::Wasm),
            (None, Some(themes), _) => {
                if themes.len() == 0 {
                    Err(Error::NoThemes(ThemeKind::Color))
                } else {
                    self.colors(tree, themes)
                }
            },
            (None, None, Some(themes)) => {
                if themes.len() == 0 {
                    Err(Error::NoThemes(ThemeKind::Icon))
                } else {
                    self.icon_themes(tree, icon_key, themes)
                }
            },
            (None, None, None) => Err(Error::NotAValidPlugin),
        }
    }

    fn readme(&mut self, tree: &FileTree, readme_key: String)
        requires
            tree_wf(old(self).staged@),
        ensures
            final(self)@ == stage_readme(tree@, old(self)@, readme_key@),
            tree_wf(final(self).staged@),
    {
        let path = readme_path_bytes();
        match tree.get(path.as_slice()) {
            Some(d) => {
                self.add_upload(
                    Object { key: readme_key, bytes: copy_bytes(d.as_slice()), content_type: None },
                );
                self.add_file(path, copy_bytes(d.as_slice()));
            },
            None => {},
        }
    }

    fn icon(&mut self, tree: &FileTree, icon_key: String, icon: &Option<String>)
        requires
            tree_wf(old(self).staged@),
        ensures
            final(self)@ == stage_icon(tree@, old(self)@, icon_key@, opt_view(*icon)),
            tree_wf(final(self).staged@),
    {
        let root: Vec<Vec<u8>> = Vec::new();
        assert(fields_view(root@) =~= Seq::<Seq<u8>>::empty());
        match icon {
            Some(i) => match find_asset(tree, &root, i.as_str()) {
                Some((p, d)) => {
                    let kind = image_kind(p.as_slice());
                    self.add_upload(
                        Object {
                            key: icon_key,
                            bytes: copy_bytes(d.as_slice()),
                            content_type: Some(mime(kind).to_owned()),
                        },
                    );
                    self.add_file(p, d);
                },
                None => {},
            },
            None => {},
        }
    }
}

/// Colour themes: once a theme was missing, the rest is not looked at.
pub proof fn lemma_colors_stuck(
    tree: Seq<FileEntryView>,
    st: StageView,
    themes: Seq<Seq<char>>,
    n: int,
    m: int,
)
    requires
        0 <= n <= m <= themes.len(),
        stage_colors(tree, st, themes, n).1 is Err,
    ensures
        stage_colors(tree, st, themes, m) == stage_colors(tree, st, themes, n),
    decreases m - n,
{
    if n < m {
        lemma_colors_stuck(tree, st, themes, n, m - 1);
    }
}

/// Icons: once an icon was missing, the rest is not looked at.
pub proof fn lemma_icons_stuck(
    tree: Seq<FileEntryView>,
    st: StageView,
    icon_key: Seq<char>,
    dir: Seq<Seq<u8>>,
    icons: Seq<Seq<char>>,
    n: int,
    m: int,
)
    requires
        0 <= n <= m <= icons.len(),
        stage_icons(tree, st, icon_key, dir, icons, n).1 is Err,
    ensures
        stage_icons(tree, st, icon_key, dir, icons, m) == stage_icons(
            tree,
            st,
            icon_key,
            dir,
            icons,
            n,
        ),
    decreases m - n,
{
    if n < m {
        lemma_icons_stuck(tree, st, icon_key, dir, icons, n, m - 1);
    }
}

/// Icon themes: once a theme failed, the rest is not looked at.
pub proof fn lemma_icon_themes_stuck(
    tree: Seq<FileEntryView>,
    st: StageView,
    icon_key: Seq<char>,
    themes: Seq<Seq<char>>,
    n: int,
    m: int,
)
    requires
        0 <= n <= m <= themes.len(),
        stage_icon_themes(tree, st, icon_key, themes, n).1 is Err,
    ensures
        stage_icon_themes(tree, st, icon_key, themes, m) == stage_icon_themes(
            tree,
            st,
            icon_key,
            themes,
            n,
        ),
    decreases m - n,
{
    if n < m {
        lemma_icon_themes_stuck(tree, st, icon_key, themes, n, m - 1);
    }
}

/// Plans the publish of a package: checks that the files its manifest asks
/// for are there, stages them behind an empty file in the manifest's place,
/// and lists the side uploads. `m` is the manifest as it is to be
/// published, `login` the publisher.
pub fn plan_release(tree: &FileTree, m: &Manifest, login: &str) -> (r: Plan)
    ensures
        r@ == plan_of(tree@, m@, login@),
        tree_wf(r.staged@),
{
    let rendered: Vec<u8> = Vec::new();
    assert(rendered@ =~= Seq::<u8>::empty());
    let icon_key = artifact_key(login, m.name.as_str(), m.version.as_str(), Artifact::Icon);
    let readme_key = artifact_key(login, m.name.as_str(), m.version.as_str(), Artifact::Readme);
    let mut st = Stage { uploads: Vec::new(), staged: FileTree::new() };
    assert(objects_view(st.uploads@) =~= Seq::<ObjectView>::empty());
    st.add_file(manifest_path_bytes(), rendered);
    match st.kind(tree, icon_key.as_str(), m) {
        Err(e) => Plan { uploads: st.uploads, staged: st.staged, outcome: Err(e) },
        Ok(_) => {
            st.readme(tree, readme_key);
            st.icon(tree, icon_key, &m.icon);
            Plan { uploads: st.uploads, staged: st.staged, outcome: Ok(m.wasm.is_some()) }
        },
    }
}


/// The plugin row a manifest asks for.
pub open spec fn plugin_row_of(m: ManifestView, user_id: i32, wasm: bool) -> NewPluginView {
    NewPluginView {
        name: m.name,
        user_id,
        display_name: m.display_name,
        description: m.description,
        downloads: 0,
        repository: m.repository,
        wasm,
    }
}

/// The files that are packed: the staged files with the manifest text in
/// the manifest's place, whatever was staged there.
pub open spec fn packed_files(staged: Seq<FileEntryView>, text: Seq<u8>) -> Seq<FileEntryView> {
    tree_put(staged, manifest_path(), text)
}

/// What storing the archive and committing comes to: the staged files are
/// packed with the manifest text and stored as the version's archive, and
/// plugin and version are committed. A failure to pack or to commit is
/// `Internal`.
pub open spec fn archive_outcome(
    db: DbView,
    store: Seq<ObjectView>,
    user_id: i32,
    login: Seq<char>,
    m: ManifestView,
    staged: Seq<FileEntryView>,
    wasm: bool,
    text: Seq<u8>,
    now: i64,
) -> (DbView, Seq<ObjectView>, Result<(), ErrorView>) {
    match upload_of_tree(packed_files(staged, text)) {
        None => (db, store, Err(ErrorView::Internal)),
        Some(archive) => {
            let store2 = store_put(
                store,
                ObjectView {
                    key: key_of(login, m.name, m.version, Artifact::Archive),
                    bytes: archive,
                    content_type: None,
                },
            );
            let (db2, c) = db.commit_release(plugin_row_of(m, user_id, wasm), m.version, now);
            match c {
                Err(_) => (db2, store2, Err(ErrorView::Internal)),
                Ok(_) => (db2, store2, Ok(())),
            }
        },
    }
}

/// What releasing a package comes to, for the stores: the package is
/// checked and the plan's side uploads are made; then, unless the plan
/// refuses the package, the manifest text is staged, the archive stored and
/// the metadata committed. Without a manifest text the release is
/// `Internal`.
pub open spec fn release_outcome(
    db: DbView,
    store: Seq<ObjectView>,
    user_id: i32,
    login: Seq<char>,
    tree: Seq<FileEntryView>,
    m: ManifestView,
    text: Option<Seq<u8>>,
    now: i64,
) -> (DbView, Seq<ObjectView>, Result<(), ErrorView>) {
    let plan = plan_of(tree, m, login);
    let store1 = store_put_all(store, plan.uploads, plan.uploads.len() as int);
    match (plan.outcome, text) {
        (Err(e), _) => (db, store1, Err(e)),
        (Ok(_), None) => (db, store1, Err(ErrorView::Internal)),
        (Ok(wasm), Some(t)) => archive_outcome(
            db,
            store1,
            user_id,
            login,
            m,
            plan.staged,
            wasm,
            t,
            now,
        ),
    }
}

/// The package an upload holds and the manifest it is published under: the
/// manifest at the package root, its name in lower case and its author
/// replaced by the publisher's login. A manifest that declares more than one
/// kind of plugin is no manifest.
pub open spec fn accepted_package(upload: Seq<u8>, login: Seq<char>) -> Result<
    (Seq<FileEntryView>, ManifestView),
    ErrorView,
> {
    match tree_of_upload(upload) {
        None => Err(ErrorView::BadArchive),
        Some(tree) => match tree_get(tree, manifest_path()) {
            None => Err(ErrorView::BadManifest(ManifestFault::Missing)),
            Some(text) => match manifest_of(text) {
                None => Err(ErrorView::BadManifest(ManifestFault::Invalid)),
                Some(m0) => {
                    let m = ManifestView { name: lowercase_of(m0.name), author: login, ..m0 };
                    if kinds_declared(m0) > 1 {
                        Err(ErrorView::BadManifest(ManifestFault::Invalid))
                    } else if semver_of(m.version) is None {
                        Err(ErrorView::InvalidVersion)
                    } else {
                        Ok((tree, m))
                    }
                },
            },
        },
    }
}

/// The manifest of a package as it stands, where it reads as `m`: the text
/// that is then staged, byte for byte.
pub open spec fn standing_text(tree: Seq<FileEntryView>, m: ManifestView) -> Option<Seq<u8>> {
    match tree_get(tree, manifest_path()) {
        Some(t) => if manifest_of(t) == Some(m) {
            Some(t)
        } else {
            None
        },
        None => None,
    }
}

/// The text that is staged as the manifest: the package's own where it
/// reads as the manifest to publish, so where neither the name nor the
/// author had to be changed; otherwise the text that was written for it, if
/// one could be.
pub open spec fn staged_text(
    tree: Seq<FileEntryView>,
    m: ManifestView,
    rendered: Option<Seq<u8>>,
) -> Option<Seq<u8>> {
    match standing_text(tree, m) {
        Some(t) => Some(t),
        None => rendered,
    }
}

/// What a publish comes to, `rendered` being the manifest text that was
/// written for the package, if one was needed and could be written.
pub open spec fn publish_outcome(
    db: DbView,
    store: Seq<ObjectView>,
    token: Seq<char>,
    upload: Seq<u8>,
    now: i64,
    rendered: Option<Seq<u8>>,
) -> (DbView, Seq<ObjectView>, Result<(), ErrorView>) {
    let (db1, auth) = db.authenticate(digest_of(token), now);
    match auth {
        Err(_) => (db1, store, Err(ErrorView::Unauthorized(Credential::Bearer))),
        Ok(t) => match first_match(db1.users, user_has_id(t.user_id)) {
            None => (db1, store, Err(ErrorView::Unauthorized(Credential::Bearer))),
            Some(ui) => match accepted_package(upload, db1.users[ui].gh_login) {
                Err(e) => (db1, store, Err(e)),
                Ok((tree, m)) => release_outcome(
                    db1,
                    store,
                    db1.users[ui].id,
                    db1.users[ui].gh_login,
                    tree,
                    m,
                    staged_text(tree, m, rendered),
                    now,
                ),
            },
        },
    }
}

/// Whether the manifest text that was written for an upload, if one was,
/// reads back as the manifest the upload is published under: with the name
/// in lower case and the publisher as author.
pub open spec fn reads_back(
    db: DbView,
    token: Seq<char>,
    upload: Seq<u8>,
    now: i64,
    rendered: Option<Seq<u8>>,
) -> bool {
    rendered matches Some(text) ==> {
        let (db1, auth) = db.authenticate(digest_of(token), now);
        &&& auth matches Ok(t)
        &&& first_match(db1.users, user_has_id(t.user_id)) matches Some(ui)
        &&& accepted_package(upload, db1.users[ui].gh_login) matches Ok(p)
        &&& manifest_of(text) == Some(p.1)
    }
}

/// A package read out of an upload, as contracts see it.
pub open spec fn package_view(r: Result<(FileTree, Manifest), Error>) -> Result<
    (Seq<FileEntryView>, ManifestView),
    ErrorView,
> {
    match r {
        Ok(p) => Ok((p.0@, p.1@)),
        Err(e) => Err(e@),
    }
}

/// Unpacks an upload and reads its manifest for publishing by `login`.
pub fn read_package(upload: &[u8], login: &str) -> (r: Result<(FileTree, Manifest), Error>)
    ensures
        package_view(r) == accepted_package(upload@, login@),
        r matches Ok(p) ==> tree_wf(p.0@),
{
    let tree = match unpack(upload) {
        Ok(t) => t,
        Err(_) => {
            return Err(Error::BadArchive);
        },
    };
    let path = manifest_path_bytes();
    let parsed = match tree.get(path.as_slice()) {
        Some(text) => Manifest::parse(text.as_slice()),
        None => {
            return Err(Error::BadManifest(ManifestFault::Missing));
        },
    };
    let mut m = match parsed {
        Some(m) => m,
        None => {
            return Err(Error::BadManifest(ManifestFault::Invalid));
        },
    };
    if m.kinds() > 1 {
        return Err(Error::BadManifest(ManifestFault::Invalid));
    }
    m.name = to_lowercase(m.name.as_str());
    m.author = login.to_owned();
    if SemVer::parse(m.version.as_str()).is_none() {
        return Err(Error::InvalidVersion);
    }
    Ok((tree, m))
}

/// The text to stage as the manifest `m` of a package: the package's own
/// manifest, byte for byte, where it reads as `m`; otherwise a text written
/// for `m` that reads back as `m`, or nothing where none can be written.
pub fn manifest_text(tree: &FileTree, m: &Manifest) -> (r: Option<Vec<u8>>)
    ensures
        standing_text(tree@, m@) matches Some(t) ==> r matches Some(x) && x@ == t,
        r matches Some(x) ==> manifest_of(x@) == Some(m@),
{
    let path = manifest_path_bytes();
    match tree.get(path.as_slice()) {
        Some(text) => {
            match Manifest::parse(text.as_slice()) {
                Some(own) => {
                    if own.same_fields(m) {
                        return Some(copy_bytes(text.as_slice()));
                    }
                },
                None => {},
            }
        },
        None => {},
    }
    m.render()
}

fn store_archive(
    db: &mut Database,
    store: &mut ArtifactStore,
    user_id: i32,
    login: &str,
    m: &Manifest,
    staged: FileTree,
    wasm: bool,
    text: Vec<u8>,
    now: i64,
) -> (r: Result<(), Error>)
    requires
        old(db)@.wf(),
        store_wf(old(store)@),
        tree_wf(staged@),
    ensures
        final(db)@.wf(),
        store_wf(final(store)@),
        (final(db)@, final(store)@, step_view(r)) == archive_outcome(
            old(db)@,
            old(store)@,
            user_id,
            login@,
            m@,
            staged@,
            wasm,
            text@,
            now,
        ),
{
    let mut files = staged;
    files.put(manifest_path_bytes(), text);
    let archive = match pack(&files) {
        Ok(a) => a,
        Err(_) => {
            return Err(Error::Internal);
        },
    };
    let key = artifact_key(login, m.name.as_str(), m.version.as_str(), Artifact::Archive);
    store.put(Object { key, bytes: archive, content_type: None });
    let repository = match &m.repository {
        Some(r) => Some(r.as_str()),
        None => None,
    };
    let row = NewPlugin::new(
        m.name.as_str(),
        user_id,
        m.display_name.as_str(),
        m.description.as_str(),
        repository,
        wasm,
    );
    match commit_release(db, &row, m.version.as_str(), now) {
        Ok(_) => Ok(()),
        Err(_) => Err(Error::Internal),
    }
}

/// Releases a package that was read, with `text` as its manifest: checks
/// the package, makes the side uploads, stores the archive and commits the
/// metadata.
pub fn release(
    db: &mut Database,
    store: &mut ArtifactStore,
    user_id: i32,
    login: &str,
    tree: &FileTree,
    m: &Manifest,
    text: Vec<u8>,
    now: i64,
) -> (r: Result<(), Error>)
    requires
        old(db)@.wf(),
        store_wf(old(store)@),
    ensures
        final(db)@.wf(),
        store_wf(final(store)@),
        (final(db)@, final(store)@, step_view(r)) == release_outcome(
            old(db)@,
            old(store)@,
            user_id,
            login@,
            tree@,
            m@,
            Some(text@),
            now,
        ),
{
    let plan = plan_release(tree, m, login);
    store.put_all(&plan.uploads);
    match plan.outcome {
        Ok(wasm) => store_archive(db, store, user_id, login, m, plan.staged, wasm, text, now),
        Err(e) => Err(e),
    }
}

/// Publishes an uploaded package on behalf of the bearer of `token`.
///
/// The package is checked before anything is written for it. The manifest
/// that is staged is the uploaded one, byte for byte, where it already reads
/// as the manifest to publish. Otherwise a text is written for it, which
/// comes from the TOML serializer and is not fixed by the manifest alone, so
/// the contract speaks of the text that was written: it reads back as the
/// manifest under which the upload is published, and the stores and the
/// result are what [`publish_outcome`] says for it.
pub fn publish(
    db: &mut Database,
    store: &mut ArtifactStore,
    token: &str,
    upload: &[u8],
    now: i64,
) -> (r: Result<(), Error>)
    requires
        old(db)@.wf(),
        store_wf(old(store)@),
    ensures
        final(db)@.wf(),
        store_wf(final(store)@),
        exists|rendered: Option<Seq<u8>>|
            (final(db)@, final(store)@, step_view(r)) == #[trigger] publish_outcome(
                old(db)@,
                old(store)@,
                token@,
                upload@,
                now,
                rendered,
            ) && reads_back(old(db)@, token@, upload@, now, rendered),
{
    let ghost d0 = db@;
    let ghost s0 = store@;
    let api_token = match find_api_token(db, token, now) {
        Ok(t) => t,
        Err(_) => {
            assert((db@, store@, Err::<(), ErrorView>(ErrorView::Unauthorized(Credential::Bearer)))
                == publish_outcome(d0, s0, token@, upload@, now, None));
            return Err(Error::Unauthorized(Credential::Bearer));
        },
    };
    let user = match find_user(db, api_token.user_id) {
        Ok(u) => u,
        Err(_) => {
            assert((db@, store@, Err::<(), ErrorView>(ErrorView::Unauthorized(Credential::Bearer)))
                == publish_outcome(d0, s0, token@, upload@, now, None));
            return Err(Error::Unauthorized(Credential::Bearer));
        },
    };
    let (tree, m) = match read_package(upload, user.gh_login.as_str()) {
        Ok(p) => p,
        Err(e) => {
            assert((db@, store@, Err::<(), ErrorView>(e@)) == publish_outcome(
                d0,
                s0,
                token@,
                upload@,
                now,
                None,
            ));
            return Err(e);
        },
    };
    let plan = plan_release(&tree, &m, user.gh_login.as_str());
    store.put_all(&plan.uploads);
    let wasm = match plan.outcome {
        Ok(w) => w,
        Err(e) => {
            assert((db@, store@, Err::<(), ErrorView>(e@)) == publish_outcome(
                d0,
                s0,
                token@,
                upload@,
                now,
                None,
            ));
            return Err(e);
        },
    };
    let text = match manifest_text(&tree, &m) {
        Some(text) => text,
        None => {
            assert(standing_text(tree@, m@) is None);
            assert((db@, store@, Err::<(), ErrorView>(ErrorView::Internal)) == publish_outcome(
                d0,
                s0,
                token@,
                upload@,
                now,
                None,
            ));
            return Err(Error::Internal);
        },
    };
    let ghost t = text@;
    assert(staged_text(tree@, m@, Some(t)) == Some(t));
    assert(reads_back(d0, token@, upload@, now, Some(t)));
    let r = store_archive(
        db,
        store,
        user.id,
        user.gh_login.as_str(),
        &m,
        plan.staged,
        wasm,
        text,
        now,
    );
    assert((db@, store@, step_view(r)) == publish_outcome(d0, s0, token@, upload@, now, Some(t)));
    r
}

/// Whether every staged file is the manifest as it was written for the
/// package or a file of the package under the same path with the same
/// contents.
pub open spec fn staged_from(
    tree: Seq<FileEntryView>,
    staged: Seq<FileEntryView>,
    manifest_text: Seq<u8>,
) -> bool {
    forall|i: int|
        0 <= i < staged.len() ==> ((#[trigger] staged[i]).path == manifest_path()
            && staged[i].data == manifest_text) || tree_get(tree, staged[i].path) == Some(
            staged[i].data,
        )
}

proof fn lemma_put_staged_from(
    tree: Seq<FileEntryView>,
    staged: Seq<FileEntryView>,
    text: Seq<u8>,
    path: Seq<u8>,
    data: Seq<u8>,
)
    requires
        staged_from(tree, staged, text),
        tree_get(tree, path) == Some(data) || (path == manifest_path() && data == text),
    ensures
        staged_from(tree, tree_put(staged, path, data), text),
{
    crate::seqs::lemma_first_match_means(staged, crate::archive::file_at(path), 0);
    let out = tree_put(staged, path, data);
    assert forall|i: int| 0 <= i < out.len() implies ((#[trigger] out[i]).path == manifest_path()
        && out[i].data == text) || tree_get(tree, out[i].path) == Some(out[i].data) by {
        if i < staged.len() && out[i] != (FileEntryView { path, data }) {
            assert(out[i] == staged[i]);
        }
    }
}

proof fn lemma_required_staged_from(
    tree: Seq<FileEntryView>,
    st: StageView,
    text: Seq<u8>,
    declared: Seq<char>,
    role: AssetRole,
)
    requires
        staged_from(tree, st.staged, text),
    ensures
        staged_from(tree, stage_required(tree, st, declared, role).0.staged, text),
{
    if let Some((p, d)) = asset_at(tree, Seq::empty(), declared) {
        lemma_put_staged_from(tree, st.staged, text, p, d);
    }
}

proof fn lemma_colors_staged_from(
    tree: Seq<FileEntryView>,
    st: StageView,
    text: Seq<u8>,
    themes: Seq<Seq<char>>,
    n: int,
)
    requires
        staged_from(tree, st.staged, text),
    ensures
        staged_from(tree, stage_colors(tree, st, themes, n).0.staged, text),
    decreases n,
{
    if 0 < n <= themes.len() {
        lemma_colors_staged_from(tree, st, text, themes, n - 1);
        let (s1, r1) = stage_colors(tree, st, themes, n - 1);
        lemma_required_staged_from(tree, s1, text, themes[n - 1], AssetRole::ColorTheme);
    }
}

proof fn lemma_icons_staged_from(
    tree: Seq<FileEntryView>,
    st: StageView,
    text: Seq<u8>,
    icon_key: Seq<char>,
    dir: Seq<Seq<u8>>,
    icons: Seq<Seq<char>>,
    n: int,
)
    requires
        staged_from(tree, st.staged, text),
    ensures
        staged_from(tree, stage_icons(tree, st, icon_key, dir, icons, n).0.staged, text),
    decreases n,
{
    if 0 < n <= icons.len() {
        lemma_icons_staged_from(tree, st, text, icon_key, dir, icons, n - 1);
        let (s1, r1) = stage_icons(tree, st, icon_key, dir, icons, n - 1);
        if let Some((p, d)) = asset_at(tree, dir, icons[n - 1]) {
            lemma_put_staged_from(tree, s1.staged, text, p, d);
        }
    }
}

proof fn lemma_icon_theme_staged_from(
    tree: Seq<FileEntryView>,
    st: StageView,
    text: Seq<u8>,
    icon_key: Seq<char>,
    theme: Seq<char>,
)
    requires
        staged_from(tree, st.staged, text),
    ensures
        staged_from(tree, stage_icon_theme(tree, st, icon_key, theme).0.staged, text),
{
    match (asset_at(tree, Seq::empty(), theme), declared_dir(encode_utf8(theme))) {
        (Some((p, d)), Some(dir)) => {
            lemma_put_staged_from(tree, st.staged, text, p, d);
            let s1 = st.with_file(p, d);
            if let Some(icons) = theme_icons_of(d) {
                lemma_icons_staged_from(tree, s1, text, icon_key, dir, icons, icons.len() as int);
            }
        },
        _ => {},
    }
}

proof fn lemma_icon_themes_staged_from(
    tree: Seq<FileEntryView>,
    st: StageView,
    text: Seq<u8>,
    icon_key: Seq<char>,
    themes: Seq<Seq<char>>,
    n: int,
)
    requires
        staged_from(tree, st.staged, text),
    ensures
        staged_from(tree, stage_icon_themes(tree, st, icon_key, themes, n).0.staged, text),
    decreases n,
{
    if 0 < n <= themes.len() {
        lemma_icon_themes_staged_from(tree, st, text, icon_key, themes, n - 1);
        let (s1, r1) = stage_icon_themes(tree, st, icon_key, themes, n - 1);
        lemma_icon_theme_staged_from(tree, s1, text, icon_key, themes[n - 1]);
    }
}

/// Whatever is staged for a package comes from the package: every staged
/// file but the manifest lies in the package under the same path with the
/// same contents, and the manifest is staged as it was written for it.
pub proof fn lemma_plan_stages_package_files(
    tree: Seq<FileEntryView>,
    m: ManifestView,
    login: Seq<char>,
    rendered: Seq<u8>,
)
    ensures
        staged_from(tree, plan_with(tree, m, login, rendered).staged, rendered),
{
    let icon_key = key_of(login, m.name, m.version, Artifact::Icon);
    let readme_key = key_of(login, m.name, m.version, Artifact::Readme);
    let empty = Seq::<FileEntryView>::empty();
    assert(staged_from(tree, empty, rendered));
    lemma_put_staged_from(tree, empty, rendered, manifest_path(), rendered);
    let st0 = StageView { uploads: Seq::empty(), staged: tree_put(empty, manifest_path(), rendered) };
    match (m.wasm, m.color_themes, m.icon_themes) {
        (Some(w), _, _) => {
            lemma_required_staged_from(tree, st0, rendered, w, AssetRole::Wasm);
        },
        (None, Some(themes), _) => {
            lemma_colors_staged_from(tree, st0, rendered, themes, themes.len() as int);
        },
        (None, None, Some(themes)) => {
            lemma_icon_themes_staged_from(tree, st0, rendered, icon_key, themes, themes.len() as int);
        },
        (None, None, None) => {},
    }
    let (st1, r1) = stage_kind(tree, st0, icon_key, m);
    if r1 is Ok {
        if let Some(d) = tree_get(tree, readme_path()) {
            lemma_put_staged_from(tree, st1.staged, rendered, readme_path(), d);
        }
        let st2 = stage_readme(tree, st1, readme_key);
        if let Some(i) = m.icon {
            if let Some((p, d)) = asset_at(tree, Seq::empty(), i) {
                lemma_put_staged_from(tree, st2.staged, rendered, p, d);
            }
        }
    }
}


/// A commit that succeeds leaves the plugin under its owner and name, and
/// the version under the plugin.
pub proof fn lemma_commit_is_found(db: DbView, p: NewPluginView, num: Seq<char>, now: i64)
    requires
        db.wf(),
    ensures
        db.commit_release(p, num, now).1 matches Ok(c) ==> {
            let after = db.commit_release(p, num, now).0;
            &&& first_match(after.plugins, crate::db::plugin_is(p.user_id, p.name)) matches Some(i)
                && after.plugins[i] == c.0
            &&& first_match(after.versions, crate::db::version_is(c.0.id, num)) matches Some(j)
                && after.versions[j] == c.1
            &&& c.0.display_name == p.display_name
            &&& c.0.description == p.description
        },
{
    let (d1, r1) = db.upsert_plugin(p, now);
    db.lemma_upsert_plugin_wf(p, now);
    crate::seqs::lemma_first_match_means(db.plugins, crate::db::plugin_is(p.user_id, p.name), 0);
    if let Ok(row) = r1 {
        let nv = crate::db::NewVersionView { plugin_id: row.id, num, yanked: false };
        let (d2, r2) = d1.upsert_version(nv, now);
        d1.lemma_upsert_version_wf(nv, now);
        crate::seqs::lemma_first_match_means(d1.versions, crate::db::version_is(row.id, num), 0);
        if let Ok(v) = r2 {
            let pk = match first_match(db.plugins, crate::db::plugin_is(p.user_id, p.name)) {
                Some(i) => i,
                None => db.plugins.len() as int,
            };
            let vk = match first_match(d1.versions, crate::db::version_is(row.id, num)) {
                Some(i) => i,
                None => d1.versions.len() as int,
            };
            assert(d2.plugins[pk] == row);
            assert(d2.versions[vk] == v);
            crate::seqs::lemma_first_match_means(
                d2.plugins,
                crate::db::plugin_is(p.user_id, p.name),
                0,
            );
            crate::seqs::lemma_first_match_means(d2.versions, crate::db::version_is(row.id, num), 0);
            assert(crate::db::plugin_is(p.user_id, p.name)(d2.plugins[pk]));
            assert(crate::db::version_is(row.id, num)(d2.versions[vk]));
            let i = first_match(d2.plugins, crate::db::plugin_is(p.user_id, p.name))->Some_0;
            if i != pk {
                assert(d2.plugins[i].name == d2.plugins[pk].name);
            }
            let j = first_match(d2.versions, crate::db::version_is(row.id, num))->Some_0;
            if j != vk {
                assert(d2.versions[j].num == d2.versions[vk].num);
            }
        }
    }
}

/// Whatever author and spelling of the name a manifest carries, a publish
/// that succeeds keeps the plugin under the account of the token's owner
/// and under the name in lower case, with the version the manifest names.
pub proof fn lemma_publish_is_under_publisher(
    db: DbView,
    store: Seq<ObjectView>,
    token: Seq<char>,
    upload: Seq<u8>,
    now: i64,
    rendered: Option<Seq<u8>>,
)
    requires
        db.wf(),
    ensures
        publish_outcome(db, store, token, upload, now, rendered).2 is Ok ==> {
            let after = publish_outcome(db, store, token, upload, now, rendered).0;
            &&& db.authenticate(digest_of(token), now).1 matches Ok(t)
            &&& tree_of_upload(upload) matches Some(tree)
            &&& tree_get(tree, manifest_path()) matches Some(text)
            &&& manifest_of(text) matches Some(m)
            &&& first_match(
                after.plugins,
                crate::db::plugin_is(t.user_id, lowercase_of(m.name)),
            ) matches Some(i)
            &&& after.plugins[i].display_name == m.display_name
            &&& after.plugins[i].description == m.description
            &&& first_match(
                after.versions,
                crate::db::version_is(after.plugins[i].id, m.version),
            ) is Some
        },
{
    let (db1, auth) = db.authenticate(digest_of(token), now);
    db.lemma_authenticate_wf(digest_of(token), now);
    if let Ok(t) = auth {
        crate::seqs::lemma_first_match_means(db1.users, user_has_id(t.user_id), 0);
        if let Some(ui) = first_match(db1.users, user_has_id(t.user_id)) {
            let login = db1.users[ui].gh_login;
            if let Ok((tree, m)) = accepted_package(upload, login) {
                let plan = plan_of(tree, m, login);
                if let Ok(wasm) = plan.outcome {
                    lemma_commit_is_found(
                        db1,
                        plugin_row_of(m, db1.users[ui].id, wasm),
                        m.version,
                        now,
                    );
                }
            }
        }
    }
}


/// Whether a tree holds a file under `path` that `whole` holds under the
/// same path with the same contents.
pub open spec fn shares(tree: Seq<FileEntryView>, whole: Seq<FileEntryView>, path: Seq<u8>) -> bool {
    tree_get(tree, path) is Some && tree_get(tree, path) == tree_get(whole, path)
}

/// Whether every file of `part` is a file of `whole`.
pub open spec fn within(part: Seq<FileEntryView>, whole: Seq<FileEntryView>) -> bool {
    forall|p: Seq<u8>| (#[trigger] tree_get(part, p)) is Some ==> shares(part, whole, p)
}

/// Whether `tree` holds every file that `staged` shares with `whole`.
pub open spec fn keeps(
    tree: Seq<FileEntryView>,
    staged: Seq<FileEntryView>,
    whole: Seq<FileEntryView>,
) -> bool {
    forall|p: Seq<u8>| #[trigger] shares(staged, whole, p) ==> shares(tree, whole, p)
}

proof fn lemma_put_keeps(
    whole: Seq<FileEntryView>,
    staged: Seq<FileEntryView>,
    path: Seq<u8>,
    data: Seq<u8>,
)
    requires
        tree_wf(staged),
        tree_get(whole, path) == Some(data),
    ensures
        tree_wf(tree_put(staged, path, data)),
        keeps(tree_put(staged, path, data), staged, whole),
        shares(tree_put(staged, path, data), whole, path),
{
    crate::archive::lemma_tree_put_wf(staged, path, data);
    let out = tree_put(staged, path, data);
    assert forall|p: Seq<u8>| #[trigger] shares(staged, whole, p) implies shares(out, whole, p) by {
        if p != path {
            assert(tree_get(out, p) == tree_get(staged, p));
        }
    }
}

proof fn lemma_keeps_chain(
    a: Seq<FileEntryView>,
    b: Seq<FileEntryView>,
    c: Seq<FileEntryView>,
    whole: Seq<FileEntryView>,
)
    requires
        keeps(a, b, whole),
        keeps(b, c, whole),
    ensures
        keeps(a, c, whole),
{
    assert forall|p: Seq<u8>| #[trigger] shares(c, whole, p) implies shares(a, whole, p) by {
        assert(shares(b, whole, p));
    }
}

proof fn lemma_keeps_self(a: Seq<FileEntryView>, whole: Seq<FileEntryView>)
    ensures
        keeps(a, a, whole),
{
}

proof fn lemma_required_local(
    whole: Seq<FileEntryView>,
    part: Seq<FileEntryView>,
    st: StageView,
    declared: Seq<char>,
    role: AssetRole,
)
    requires
        tree_wf(st.staged),
    ensures
        tree_wf(stage_required(whole, st, declared, role).0.staged),
        keeps(stage_required(whole, st, declared, role).0.staged, st.staged, whole),
        stage_required(whole, st, declared, role).1 is Ok && keeps(
            part,
            stage_required(whole, st, declared, role).0.staged,
            whole,
        ) ==> stage_required(part, st, declared, role) == stage_required(
            whole,
            st,
            declared,
            role,
        ),
{
    match asset_at(whole, Seq::empty(), declared) {
        Some((p, d)) => {
            lemma_put_keeps(whole, st.staged, p, d);
            let after = stage_required(whole, st, declared, role).0.staged;
            if keeps(part, after, whole) {
                assert(shares(after, whole, p));
                assert(shares(part, whole, p));
            }
        },
        None => {
            lemma_keeps_self(st.staged, whole);
        },
    }
}

proof fn lemma_colors_local(
    whole: Seq<FileEntryView>,
    part: Seq<FileEntryView>,
    st: StageView,
    themes: Seq<Seq<char>>,
    n: int,
)
    requires
        tree_wf(st.staged),
    ensures
        tree_wf(stage_colors(whole, st, themes, n).0.staged),
        keeps(stage_colors(whole, st, themes, n).0.staged, st.staged, whole),
        stage_colors(whole, st, themes, n).1 is Ok && keeps(
            part,
            stage_colors(whole, st, themes, n).0.staged,
            whole,
        ) ==> stage_colors(part, st, themes, n) == stage_colors(whole, st, themes, n),
    decreases n,
{
    if 0 < n <= themes.len() {
        lemma_colors_local(whole, part, st, themes, n - 1);
        let (s1, r1) = stage_colors(whole, st, themes, n - 1);
        if r1 is Ok {
            lemma_required_local(whole, part, s1, themes[n - 1], AssetRole::ColorTheme);
            let s2 = stage_required(whole, s1, themes[n - 1], AssetRole::ColorTheme).0;
            lemma_keeps_chain(s2.staged, s1.staged, st.staged, whole);
            if keeps(part, s2.staged, whole) {
                lemma_keeps_chain(part, s2.staged, s1.staged, whole);
            }
        }
    } else {
        lemma_keeps_self(st.staged, whole);
    }
}

proof fn lemma_icons_local(
    whole: Seq<FileEntryView>,
    part: Seq<FileEntryView>,
    st: StageView,
    icon_key: Seq<char>,
    dir: Seq<Seq<u8>>,
    icons: Seq<Seq<char>>,
    n: int,
)
    requires
        tree_wf(st.staged),
    ensures
        tree_wf(stage_icons(whole, st, icon_key, dir, icons, n).0.staged),
        keeps(stage_icons(whole, st, icon_key, dir, icons, n).0.staged, st.staged, whole),
        stage_icons(whole, st, icon_key, dir, icons, n).1 is Ok && keeps(
            part,
            stage_icons(whole, st, icon_key, dir, icons, n).0.staged,
            whole,
        ) ==> stage_icons(part, st, icon_key, dir, icons, n) == stage_icons(
            whole,
            st,
            icon_key,
            dir,
            icons,
            n,
        ),
    decreases n,
{
    if 0 < n <= icons.len() {
        lemma_icons_local(whole, part, st, icon_key, dir, icons, n - 1);
        let (s1, r1) = stage_icons(whole, st, icon_key, dir, icons, n - 1);
        if r1 is Ok {
            match asset_at(whole, dir, icons[n - 1]) {
                Some((p, d)) => {
                    let up = s1.with_upload(
                        ObjectView { key: icon_key, bytes: d, content_type: None },
                    );
                    lemma_put_keeps(whole, up.staged, p, d);
                    let s2 = up.with_file(p, d);
                    lemma_keeps_chain(s2.staged, s1.staged, st.staged, whole);
                    if keeps(part, s2.staged, whole) {
                        lemma_keeps_chain(part, s2.staged, s1.staged, whole);
                        assert(shares(s2.staged, whole, p));
                        assert(shares(part, whole, p));
                    }
                },
                None => {},
            }
        }
    } else {
        lemma_keeps_self(st.staged, whole);
    }
}

proof fn lemma_icon_theme_local(
    whole: Seq<FileEntryView>,
    part: Seq<FileEntryView>,
    st: StageView,
    icon_key: Seq<char>,
    theme: Seq<char>,
)
    requires
        tree_wf(st.staged),
    ensures
        tree_wf(stage_icon_theme(whole, st, icon_key, theme).0.staged),
        keeps(stage_icon_theme(whole, st, icon_key, theme).0.staged, st.staged, whole),
        stage_icon_theme(whole, st, icon_key, theme).1 is Ok && keeps(
            part,
            stage_icon_theme(whole, st, icon_key, theme).0.staged,
            whole,
        ) ==> stage_icon_theme(part, st, icon_key, theme) == stage_icon_theme(
            whole,
            st,
            icon_key,
            theme,
        ),
{
    match (asset_at(whole, Seq::empty(), theme), declared_dir(encode_utf8(theme))) {
        (Some((p, d)), Some(dir)) => {
            lemma_put_keeps(whole, st.staged, p, d);
            let s1 = st.with_file(p, d);
            match theme_icons_of(d) {
                Some(icons) => {
                    lemma_icons_local(whole, part, s1, icon_key, dir, icons, icons.len() as int);
                    let s2 = stage_icons(whole, s1, icon_key, dir, icons, icons.len() as int).0;
                    lemma_keeps_chain(s2.staged, s1.staged, st.staged, whole);
                    if keeps(part, s2.staged, whole) {
                        lemma_keeps_chain(part, s2.staged, s1.staged, whole);
                        assert(shares(s1.staged, whole, p));
                        assert(shares(part, whole, p));
                    }
                },
                None => {},
            }
        },
        _ => {
            lemma_keeps_self(st.staged, whole);
        },
    }
}

proof fn lemma_icon_themes_local(
    whole: Seq<FileEntryView>,
    part: Seq<FileEntryView>,
    st: StageView,
    icon_key: Seq<char>,
    themes: Seq<Seq<char>>,
    n: int,
)
    requires
        tree_wf(st.staged),
    ensures
        tree_wf(stage_icon_themes(whole, st, icon_key, themes, n).0.staged),
        keeps(stage_icon_themes(whole, st, icon_key, themes, n).0.staged, st.staged, whole),
        stage_icon_themes(whole, st, icon_key, themes, n).1 is Ok && keeps(
            part,
            stage_icon_themes(whole, st, icon_key, themes, n).0.staged,
            whole,
        ) ==> stage_icon_themes(part, st, icon_key, themes, n) == stage_icon_themes(
            whole,
            st,
            icon_key,
            themes,
            n,
        ),
    decreases n,
{
    if 0 < n <= themes.len() {
        lemma_icon_themes_local(whole, part, st, icon_key, themes, n - 1);
        let (s1, r1) = stage_icon_themes(whole, st, icon_key, themes, n - 1);
        if r1 is Ok {
            lemma_icon_theme_local(whole, part, s1, icon_key, themes[n - 1]);
            let s2 = stage_icon_theme(whole, s1, icon_key, themes[n - 1]).0;
            lemma_keeps_chain(s2.staged, s1.staged, st.staged, whole);
            if keeps(part, s2.staged, whole) {
                lemma_keeps_chain(part, s2.staged, s1.staged, whole);
            }
        }
    } else {
        lemma_keeps_self(st.staged, whole);
    }
}

proof fn lemma_kind_local(
    whole: Seq<FileEntryView>,
    part: Seq<FileEntryView>,
    st: StageView,
    icon_key: Seq<char>,
    m: ManifestView,
)
    requires
        tree_wf(st.staged),
    ensures
        tree_wf(stage_kind(whole, st, icon_key, m).0.staged),
        keeps(stage_kind(whole, st, icon_key, m).0.staged, st.staged, whole),
        stage_kind(whole, st, icon_key, m).1 is Ok && keeps(
            part,
            stage_kind(whole, st, icon_key, m).0.staged,
            whole,
        ) ==> stage_kind(part, st, icon_key, m) == stage_kind(whole, st, icon_key, m),
{
    lemma_keeps_self(st.staged, whole);
    match (m.wasm, m.color_themes, m.icon_themes) {
        (Some(w), _, _) => {
            lemma_required_local(whole, part, st, w, AssetRole::Wasm);
        },
        (None, Some(themes), _) => {
            lemma_colors_local(whole, part, st, themes, themes.len() as int);
        },
        (None, None, Some(themes)) => {
            lemma_icon_themes_local(whole, part, st, icon_key, themes, themes.len() as int);
        },
        (None, None, None) => {},
    }
}

/// What is planned for a package depends on no file but those it stages: a
/// package that holds only files of the first, and among them every file
/// that was staged out of it, comes to the same plan. Files that nothing
/// refers to make no difference, then, and the package the client builds is
/// staged by the registry as the whole directory would be.
pub proof fn lemma_plan_sees_only_what_it_stages(
    whole: Seq<FileEntryView>,
    part: Seq<FileEntryView>,
    m: ManifestView,
    login: Seq<char>,
    rendered: Seq<u8>,
)
    requires
        plan_with(whole, m, login, rendered).outcome is Ok,
        within(part, whole),
        keeps(part, plan_with(whole, m, login, rendered).staged, whole),
    ensures
        plan_with(part, m, login, rendered) == plan_with(whole, m, login, rendered),
{
    let icon_key = key_of(login, m.name, m.version, Artifact::Icon);
    let readme_key = key_of(login, m.name, m.version, Artifact::Readme);
    let empty = Seq::<FileEntryView>::empty();
    crate::archive::lemma_tree_put_wf(empty, manifest_path(), rendered);
    let st0 = StageView { uploads: Seq::empty(), staged: tree_put(empty, manifest_path(), rendered) };
    lemma_kind_local(whole, part, st0, icon_key, m);
    let (st1, r1) = stage_kind(whole, st0, icon_key, m);
    let st2 = stage_readme(whole, st1, readme_key);
    let st3 = stage_icon(whole, st2, icon_key, m.icon);
    // the readme
    match tree_get(whole, readme_path()) {
        Some(d) => {
            let up = st1.with_upload(ObjectView { key: readme_key, bytes: d, content_type: None });
            lemma_put_keeps(whole, up.staged, readme_path(), d);
        },
        None => {
            lemma_keeps_self(st1.staged, whole);
        },
    }
    assert(tree_wf(st2.staged));
    assert(keeps(st2.staged, st1.staged, whole));
    // the icon
    match m.icon {
        Some(i) => match asset_at(whole, Seq::empty(), i) {
            Some((p, d)) => {
                let up = st2.with_upload(
                    ObjectView {
                        key: icon_key,
                        bytes: d,
                        content_type: Some(mime_of(image_kind_of(p))),
                    },
                );
                lemma_put_keeps(whole, up.staged, p, d);
                assert(shares(st3.staged, whole, p));
                assert(shares(part, whole, p));
            },
            None => {
                lemma_keeps_self(st2.staged, whole);
                let t = declared_target(Seq::empty(), encode_utf8(i));
                if t is Some {
                    if tree_get(part, t->Some_0) is Some {
                        assert(shares(part, whole, t->Some_0));
                    }
                }
            },
        },
        None => {
            lemma_keeps_self(st2.staged, whole);
        },
    }
    assert(keeps(st3.staged, st2.staged, whole));
    lemma_keeps_chain(part, st3.staged, st2.staged, whole);
    lemma_keeps_chain(part, st2.staged, st1.staged, whole);
    assert(stage_kind(part, st0, icon_key, m) == (st1, r1));
    match tree_get(whole, readme_path()) {
        Some(d) => {
            assert(shares(st2.staged, whole, readme_path()));
            assert(shares(part, whole, readme_path()));
        },
        None => {
            if tree_get(part, readme_path()) is Some {
                assert(shares(part, whole, readme_path()));
            }
        },
    }
    assert(stage_readme(part, st1, readme_key) == st2);
    assert(stage_icon(part, st2, icon_key, m.icon) == st3);
}


/// No two staged files share a path.
pub proof fn lemma_plan_staged_wf(
    tree: Seq<FileEntryView>,
    m: ManifestView,
    login: Seq<char>,
    rendered: Seq<u8>,
)
    ensures
        tree_wf(plan_with(tree, m, login, rendered).staged),
{
    let icon_key = key_of(login, m.name, m.version, Artifact::Icon);
    let readme_key = key_of(login, m.name, m.version, Artifact::Readme);
    let empty = Seq::<FileEntryView>::empty();
    crate::archive::lemma_tree_put_wf(empty, manifest_path(), rendered);
    let st0 = StageView { uploads: Seq::empty(), staged: tree_put(empty, manifest_path(), rendered) };
    lemma_kind_local(tree, tree, st0, icon_key, m);
    let (st1, r1) = stage_kind(tree, st0, icon_key, m);
    if let Some(d) = tree_get(tree, readme_path()) {
        crate::archive::lemma_tree_put_wf(st1.staged, readme_path(), d);
    }
    let st2 = stage_readme(tree, st1, readme_key);
    if let Some(i) = m.icon {
        if let Some((p, d)) = asset_at(tree, Seq::empty(), i) {
            crate::archive::lemma_tree_put_wf(st2.staged, p, d);
        }
    }
}

/// Staging what was staged changes nothing: where the manifest is staged as
/// it stands in the package, the plan for the staged files is the plan for
/// the package.
pub proof fn lemma_plan_is_idempotent(
    tree: Seq<FileEntryView>,
    m: ManifestView,
    login: Seq<char>,
    text: Seq<u8>,
)
    requires
        tree_get(tree, manifest_path()) == Some(text),
        plan_with(tree, m, login, text).outcome is Ok,
    ensures
        plan_with(plan_with(tree, m, login, text).staged, m, login, text) == plan_with(
            tree,
            m,
            login,
            text,
        ),
{
    let staged = plan_with(tree, m, login, text).staged;
    lemma_plan_staged_wf(tree, m, login, text);
    lemma_plan_stages_package_files(tree, m, login, text);
    assert forall|p: Seq<u8>| (#[trigger] tree_get(staged, p)) is Some implies shares(
        staged,
        tree,
        p,
    ) by {
        crate::seqs::lemma_first_match_means(staged, crate::archive::file_at(p), 0);
        let i = first_match(staged, crate::archive::file_at(p))->Some_0;
        assert(staged[i].path == p);
    }
    lemma_keeps_self(staged, tree);
    lemma_plan_sees_only_what_it_stages(tree, staged, m, login, text);
}


/// Releasing the same name and version twice for one account: where both
/// releases succeed, the second adds no plugin and no version, and the
/// plugin carries the description and display name of the second manifest.
pub proof fn lemma_release_twice(
    db: DbView,
    store: Seq<ObjectView>,
    user_id: i32,
    login: Seq<char>,
    tree1: Seq<FileEntryView>,
    m1: ManifestView,
    text1: Option<Seq<u8>>,
    now1: i64,
    tree2: Seq<FileEntryView>,
    m2: ManifestView,
    text2: Option<Seq<u8>>,
    now2: i64,
)
    requires
        db.wf(),
        m1.name == m2.name,
        m1.version == m2.version,
    ensures
        ({
            let (db1, store1, r1) = release_outcome(db, store, user_id, login, tree1, m1, text1, now1);
            let (db2, store2, r2) = release_outcome(
                db1,
                store1,
                user_id,
                login,
                tree2,
                m2,
                text2,
                now2,
            );
            r1 is Ok && r2 is Ok ==> {
                &&& db2.plugins.len() == db1.plugins.len()
                &&& db2.versions.len() == db1.versions.len()
                &&& first_match(db2.plugins, crate::db::plugin_is(user_id, m2.name)) matches Some(i)
                    && db2.plugins[i].description == m2.description && db2.plugins[i].display_name
                    == m2.display_name
            }
        }),
{
    let (db1, store1, r1) = release_outcome(db, store, user_id, login, tree1, m1, text1, now1);
    let (db2, store2, r2) = release_outcome(db1, store1, user_id, login, tree2, m2, text2, now2);
    if r1 is Ok && r2 is Ok {
        let w1 = plan_of(tree1, m1, login).outcome->Ok_0;
        let w2 = plan_of(tree2, m2, login).outcome->Ok_0;
        let p1 = plugin_row_of(m1, user_id, w1);
        let p2 = plugin_row_of(m2, user_id, w2);
        db.lemma_commit_release_twice(p1, p2, m1.version, now1, now2);
        db.lemma_commit_release_wf(p1, m1.version, now1);
        lemma_commit_is_found(db1, p2, m2.version, now2);
    }
}


/// What is packed comes from the package: the manifest's place holds the
/// manifest text and nothing else does, and every other file that is packed
/// lies in the package under the same path with the same contents.
pub proof fn lemma_packed_files_are_package_files(
    tree: Seq<FileEntryView>,
    m: ManifestView,
    login: Seq<char>,
    text: Seq<u8>,
)
    ensures
        ({
            let files = packed_files(plan_of(tree, m, login).staged, text);
            &&& tree_wf(files)
            &&& tree_get(files, manifest_path()) == Some(text)
            &&& forall|i: int|
                0 <= i < files.len() ==> if (#[trigger] files[i]).path == manifest_path() {
                    files[i].data == text
                } else {
                    tree_get(tree, files[i].path) == Some(files[i].data)
                }
        }),
{
    let staged = plan_of(tree, m, login).staged;
    let files = packed_files(staged, text);
    lemma_plan_staged_wf(tree, m, login, Seq::empty());
    lemma_plan_stages_package_files(tree, m, login, Seq::empty());
    crate::archive::lemma_tree_put_wf(staged, manifest_path(), text);
    crate::seqs::lemma_first_match_means(staged, crate::archive::file_at(manifest_path()), 0);
    let k = match first_match(staged, crate::archive::file_at(manifest_path())) {
        Some(i) => i,
        None => staged.len() as int,
    };
    assert forall|i: int| 0 <= i < files.len() implies if (#[trigger] files[i]).path
        == manifest_path() {
        files[i].data == text
    } else {
        tree_get(tree, files[i].path) == Some(files[i].data)
    } by {
        if i != k {
            assert(files[i] == staged[i]);
            assert(!crate::archive::file_at(manifest_path())(staged[i])) by {
                if staged[i].path == manifest_path() {
                    if k < staged.len() {
                        if i < k {
                            assert(staged[i].path != staged[k].path);
                        } else {
                            assert(staged[k].path != staged[i].path);
                        }
                    }
                }
            }
        }
    }
}

/// The archive that a release stores unpacks to the files that were packed:
/// after a release that succeeded, the object under the version's archive
/// key holds an archive whose files are the staged files with the manifest
/// text in the manifest's place.
pub proof fn lemma_stored_archive_unpacks(
    db: DbView,
    store: Seq<ObjectView>,
    user_id: i32,
    login: Seq<char>,
    tree: Seq<FileEntryView>,
    m: ManifestView,
    text: Seq<u8>,
    now: i64,
)
    requires
        store_wf(store),
    ensures
        release_outcome(db, store, user_id, login, tree, m, Some(text), now).2 is Ok ==> ({
            let after = release_outcome(db, store, user_id, login, tree, m, Some(text), now).1;
            let key = key_of(login, m.name, m.version, Artifact::Archive);
            &&& crate::storage::store_get(after, key) matches Some(o)
            &&& tree_of_upload(o.bytes) == Some(packed_files(plan_of(tree, m, login).staged, text))
        }),
{
    let plan = plan_of(tree, m, login);
    let store1 = store_put_all(store, plan.uploads, plan.uploads.len() as int);
    lemma_put_all_wf(store, plan.uploads, plan.uploads.len() as int);
    if let Some(archive) = upload_of_tree(packed_files(plan.staged, text)) {
        crate::storage::lemma_store_put(
            store1,
            ObjectView {
                key: key_of(login, m.name, m.version, Artifact::Archive),
                bytes: archive,
                content_type: None,
            },
        );
    }
}

proof fn lemma_put_all_wf(objects: Seq<ObjectView>, puts: Seq<ObjectView>, n: int)
    requires
        store_wf(objects),
    ensures
        store_wf(store_put_all(objects, puts, n)),
    decreases n,
{
    if 0 < n <= puts.len() {
        lemma_put_all_wf(objects, puts, n - 1);
        crate::storage::lemma_store_put(store_put_all(objects, puts, n - 1), puts[n - 1]);
    }
}

/// The registry reads what the client packs: an archive that packing a
/// tree hands out is no bad archive, and unpacks to the tree.
pub proof fn lemma_packed_archive_is_read(files: Seq<FileEntryView>)
    ensures
        upload_of_tree(files) matches Some(bytes) ==> (tree_of_upload(bytes) == Some(files)),
{
}


/// Whether an upload is fit to be published by `login`, given the manifest
/// text that was written for it, if one was: it is accepted, the files its
/// manifest asks for are there, a manifest text is at hand, and the staged
/// files pack.
pub open spec fn publishable(upload: Seq<u8>, login: Seq<char>, rendered: Option<Seq<u8>>) -> bool {
    match accepted_package(upload, login) {
        Ok(p) => plan_of(p.0, p.1, login).outcome is Ok && match staged_text(p.0, p.1, rendered) {
            Some(t) => upload_of_tree(packed_files(plan_of(p.0, p.1, login).staged, t)) is Some,
            None => false,
        },
        Err(_) => false,
    }
}

/// Publishing the same name and version again succeeds: once a publish has
/// succeeded, a publish by the same bearer of an upload that is fit to be
/// published under the same name and version succeeds too. It adds neither
/// a plugin nor a version, and the store stays well formed, so there is
/// one version row for that plugin and version string, the one the first
/// publish left. An upload whose manifest needs no rewriting is fit
/// whatever the serializer does.
pub proof fn lemma_publish_twice(
    db: DbView,
    store: Seq<ObjectView>,
    token: Seq<char>,
    upload1: Seq<u8>,
    upload2: Seq<u8>,
    now1: i64,
    now2: i64,
    rendered1: Option<Seq<u8>>,
    rendered2: Option<Seq<u8>>,
)
    requires
        db.wf(),
        publish_outcome(db, store, token, upload1, now1, rendered1).2 is Ok,
        ({
            let (a0, auth) = db.authenticate(digest_of(token), now1);
            let ui = first_match(a0.users, user_has_id(auth->Ok_0.user_id))->Some_0;
            let login = a0.users[ui].gh_login;
            &&& publishable(upload2, login, rendered2)
            &&& accepted_package(upload2, login)->Ok_0.1.name == accepted_package(
                upload1,
                login,
            )->Ok_0.1.name
            &&& accepted_package(upload2, login)->Ok_0.1.version == accepted_package(
                upload1,
                login,
            )->Ok_0.1.version
        }),
    ensures
        ({
            let (db1, store1, r1) = publish_outcome(db, store, token, upload1, now1, rendered1);
            let (db2, store2, r2) = publish_outcome(db1, store1, token, upload2, now2, rendered2);
            &&& r2 is Ok
            &&& db2.wf()
            &&& db2.plugins.len() == db1.plugins.len()
            &&& db2.versions.len() == db1.versions.len()
            &&& forall|j: int|
                0 <= j < db1.versions.len() ==> (#[trigger] db2.versions[j]).id
                    == db1.versions[j].id && db2.versions[j].num == db1.versions[j].num
                    && db2.versions[j].plugin_id == db1.versions[j].plugin_id
        }),
{
    let dig = digest_of(token);
    let (a0, auth0) = db.authenticate(dig, now1);
    db.lemma_authenticate_wf(dig, now1);
    crate::seqs::lemma_first_match_means(db.api_tokens, crate::db::token_live_with(dig), 0);
    let k = first_match(db.api_tokens, crate::db::token_live_with(dig))->Some_0;
    let t0 = auth0->Ok_0;
    let ui = first_match(a0.users, user_has_id(t0.user_id))->Some_0;
    let user = a0.users[ui];
    let login = user.gh_login;
    let (tree1, m1) = accepted_package(upload1, login)->Ok_0;
    let (tree2, m2) = accepted_package(upload2, login)->Ok_0;
    let w1 = plan_of(tree1, m1, login).outcome->Ok_0;
    let w2 = plan_of(tree2, m2, login).outcome->Ok_0;
    let p1 = plugin_row_of(m1, user.id, w1);
    let p2 = plugin_row_of(m2, user.id, w2);
    let (db1, store1, r1) = publish_outcome(db, store, token, upload1, now1, rendered1);
    assert(db1 == a0.commit_release(p1, m1.version, now1).0);
    a0.lemma_commit_release_wf(p1, m1.version, now1);
    a0.lemma_commit_release_twice(p1, p2, m1.version, now1, now2);
    // the token and its account are still there
    assert(db1.api_tokens == a0.api_tokens);
    assert(db1.users == a0.users);
    assert(crate::db::token_live_with(dig)(a0.api_tokens[k]));
    assert forall|j: int| 0 <= j < k implies !crate::db::token_live_with(dig)(
        #[trigger] a0.api_tokens[j],
    ) by {
        assert(a0.api_tokens[j] == db.api_tokens[j]);
    }
    crate::seqs::lemma_first_match_found(a0.api_tokens, crate::db::token_live_with(dig), 0, k);
    let (a1, auth1) = db1.authenticate(dig, now2);
    db1.lemma_authenticate_wf(dig, now2);
    assert(auth1 is Ok && auth1->Ok_0.user_id == t0.user_id);
    assert(a1.users == db1.users);
    assert(a1.plugins == db1.plugins && a1.versions == db1.versions);
    // committing does not look at the tokens
    let c_on_db1 = db1.commit_release(p2, m2.version, now2);
    let c_on_a1 = a1.commit_release(p2, m2.version, now2);
    assert(a1.upsert_plugin(p2, now2).1 == db1.upsert_plugin(p2, now2).1);
    assert(a1.upsert_plugin(p2, now2).0.plugins == db1.upsert_plugin(p2, now2).0.plugins);
    assert(c_on_a1.1 == c_on_db1.1);
    assert(c_on_a1.0.plugins == c_on_db1.0.plugins);
    assert(c_on_a1.0.versions == c_on_db1.0.versions);
    a1.lemma_commit_release_wf(p2, m2.version, now2);
    // a commit keeps the rows it does not touch, and the ids of those it does
    crate::seqs::lemma_first_match_means(
        db1.upsert_plugin(p2, now2).0.versions,
        crate::db::version_is(db1.upsert_plugin(p2, now2).1->Ok_0.id, m2.version),
        0,
    );
}


/// Whether a path is one that an icon theme brings into a package: the
/// theme file itself, or an icon that the theme file, as the package holds
/// it, refers to.
pub open spec fn theme_brings(tree: Seq<FileEntryView>, theme: Seq<char>, p: Seq<u8>) -> bool {
    ||| declared_target(Seq::empty(), encode_utf8(theme)) == Some(p)
    ||| match (
        asset_at(tree, Seq::empty(), theme),
        declared_dir(encode_utf8(theme)),
    ) {
        (Some(f), Some(dir)) => match theme_icons_of(f.1) {
            Some(icons) => exists|j: int|
                0 <= j < icons.len() && declared_target(dir, encode_utf8(#[trigger] icons[j]))
                    == Some(p),
            None => false,
        },
        _ => false,
    }
}

/// Whether a path is one the manifest declares: the manifest itself, the
/// readme, the icon, the wasm module, a colour theme, an icon theme or an
/// icon that an icon theme refers to.
pub open spec fn is_declared(tree: Seq<FileEntryView>, m: ManifestView, p: Seq<u8>) -> bool {
    ||| p == manifest_path()
    ||| p == readme_path()
    ||| (m.icon is Some && declared_target(Seq::empty(), encode_utf8(m.icon->Some_0)) == Some(p))
    ||| (m.wasm is Some && declared_target(Seq::empty(), encode_utf8(m.wasm->Some_0)) == Some(p))
    ||| (m.color_themes is Some && exists|i: int|
        0 <= i < m.color_themes->Some_0.len() && declared_target(
            Seq::empty(),
            encode_utf8(#[trigger] m.color_themes->Some_0[i]),
        ) == Some(p))
    ||| (m.icon_themes is Some && exists|i: int|
        0 <= i < m.icon_themes->Some_0.len() && theme_brings(
            tree,
            #[trigger] m.icon_themes->Some_0[i],
            p,
        ))
}

/// Whether every path of a list of files satisfies `ok`.
pub open spec fn all_paths(files: Seq<FileEntryView>, ok: spec_fn(Seq<u8>) -> bool) -> bool {
    forall|i: int| 0 <= i < files.len() ==> ok((#[trigger] files[i]).path)
}

proof fn lemma_put_paths(
    files: Seq<FileEntryView>,
    ok: spec_fn(Seq<u8>) -> bool,
    path: Seq<u8>,
    data: Seq<u8>,
)
    requires
        all_paths(files, ok),
        ok(path),
    ensures
        all_paths(tree_put(files, path, data), ok),
{
    crate::seqs::lemma_first_match_means(files, crate::archive::file_at(path), 0);
    let out = tree_put(files, path, data);
    assert forall|i: int| 0 <= i < out.len() implies ok((#[trigger] out[i]).path) by {
        if i < files.len() && out[i] != (FileEntryView { path, data }) {
            assert(out[i] == files[i]);
        }
    }
}

proof fn lemma_required_paths(
    tree: Seq<FileEntryView>,
    st: StageView,
    declared: Seq<char>,
    role: AssetRole,
    ok: spec_fn(Seq<u8>) -> bool,
)
    requires
        all_paths(st.staged, ok),
        declared_target(Seq::empty(), encode_utf8(declared)) matches Some(p) ==> ok(p),
    ensures
        all_paths(stage_required(tree, st, declared, role).0.staged, ok),
{
    if let Some((p, d)) = asset_at(tree, Seq::empty(), declared) {
        lemma_put_paths(st.staged, ok, p, d);
    }
}

proof fn lemma_colors_paths(
    tree: Seq<FileEntryView>,
    st: StageView,
    themes: Seq<Seq<char>>,
    n: int,
    ok: spec_fn(Seq<u8>) -> bool,
)
    requires
        all_paths(st.staged, ok),
        forall|i: int|
            0 <= i < themes.len() ==> (declared_target(
                Seq::empty(),
                encode_utf8(#[trigger] themes[i]),
            ) matches Some(p) ==> ok(p)),
    ensures
        all_paths(stage_colors(tree, st, themes, n).0.staged, ok),
    decreases n,
{
    if 0 < n <= themes.len() {
        lemma_colors_paths(tree, st, themes, n - 1, ok);
        let (s1, r1) = stage_colors(tree, st, themes, n - 1);
        assert(themes[n - 1] == themes[n - 1]);
        lemma_required_paths(tree, s1, themes[n - 1], AssetRole::ColorTheme, ok);
    }
}

proof fn lemma_icons_paths(
    tree: Seq<FileEntryView>,
    st: StageView,
    icon_key: Seq<char>,
    dir: Seq<Seq<u8>>,
    icons: Seq<Seq<char>>,
    n: int,
    ok: spec_fn(Seq<u8>) -> bool,
)
    requires
        all_paths(st.staged, ok),
        forall|j: int|
            0 <= j < icons.len() ==> (declared_target(dir, encode_utf8(#[trigger] icons[j]))
                matches Some(p) ==> ok(p)),
    ensures
        all_paths(stage_icons(tree, st, icon_key, dir, icons, n).0.staged, ok),
    decreases n,
{
    if 0 < n <= icons.len() {
        lemma_icons_paths(tree, st, icon_key, dir, icons, n - 1, ok);
        let (s1, r1) = stage_icons(tree, st, icon_key, dir, icons, n - 1);
        assert(icons[n - 1] == icons[n - 1]);
        if let Some((p, d)) = asset_at(tree, dir, icons[n - 1]) {
            lemma_put_paths(s1.staged, ok, p, d);
        }
    }
}

proof fn lemma_icon_theme_paths(
    tree: Seq<FileEntryView>,
    st: StageView,
    icon_key: Seq<char>,
    theme: Seq<char>,
    ok: spec_fn(Seq<u8>) -> bool,
)
    requires
        all_paths(st.staged, ok),
        forall|p: Seq<u8>| #[trigger] theme_brings(tree, theme, p) ==> ok(p),
    ensures
        all_paths(stage_icon_theme(tree, st, icon_key, theme).0.staged, ok),
{
    match (asset_at(tree, Seq::empty(), theme), declared_dir(encode_utf8(theme))) {
        (Some((p, d)), Some(dir)) => {
            assert(theme_brings(tree, theme, p));
            lemma_put_paths(st.staged, ok, p, d);
            let s1 = st.with_file(p, d);
            if let Some(icons) = theme_icons_of(d) {
                assert forall|j: int| 0 <= j < icons.len() implies (declared_target(
                    dir,
                    encode_utf8(#[trigger] icons[j]),
                ) matches Some(q) ==> ok(q)) by {
                    if let Some(q) = declared_target(dir, encode_utf8(icons[j])) {
                        assert(theme_brings(tree, theme, q));
                    }
                }
                lemma_icons_paths(tree, s1, icon_key, dir, icons, icons.len() as int, ok);
            }
        },
        _ => {},
    }
}

proof fn lemma_icon_themes_paths(
    tree: Seq<FileEntryView>,
    st: StageView,
    icon_key: Seq<char>,
    themes: Seq<Seq<char>>,
    n: int,
    ok: spec_fn(Seq<u8>) -> bool,
)
    requires
        all_paths(st.staged, ok),
        forall|i: int, p: Seq<u8>|
            0 <= i < themes.len() && #[trigger] theme_brings(tree, themes[i], p) ==> ok(p),
    ensures
        all_paths(stage_icon_themes(tree, st, icon_key, themes, n).0.staged, ok),
    decreases n,
{
    if 0 < n <= themes.len() {
        lemma_icon_themes_paths(tree, st, icon_key, themes, n - 1, ok);
        let (s1, r1) = stage_icon_themes(tree, st, icon_key, themes, n - 1);
        lemma_icon_theme_paths(tree, s1, icon_key, themes[n - 1], ok);
    }
}

/// The path test of [`is_declared`].
pub open spec fn declared_in(tree: Seq<FileEntryView>, m: ManifestView) -> spec_fn(Seq<u8>) -> bool {
    |p: Seq<u8>| is_declared(tree, m, p)
}

/// Nothing is packed that the manifest does not declare: every file that
/// is packed is the manifest, the readme, the icon or a file that the
/// manifest or one of its icon themes refers to. A file of the upload that
/// nothing refers to is not packed.
pub proof fn lemma_packed_files_are_declared(
    tree: Seq<FileEntryView>,
    m: ManifestView,
    login: Seq<char>,
    text: Seq<u8>,
)
    ensures
        all_paths(packed_files(plan_of(tree, m, login).staged, text), declared_in(tree, m)),
{
    let ok = declared_in(tree, m);
    let icon_key = key_of(login, m.name, m.version, Artifact::Icon);
    let readme_key = key_of(login, m.name, m.version, Artifact::Readme);
    let empty = Seq::<FileEntryView>::empty();
    let none = Seq::<u8>::empty();
    assert(all_paths(empty, ok));
    lemma_put_paths(empty, ok, manifest_path(), none);
    let st0 = StageView { uploads: Seq::empty(), staged: tree_put(empty, manifest_path(), none) };
    match (m.wasm, m.color_themes, m.icon_themes) {
        (Some(w), _, _) => {
            lemma_required_paths(tree, st0, w, AssetRole::Wasm, ok);
        },
        (None, Some(themes), _) => {
            assert forall|i: int| 0 <= i < themes.len() implies (declared_target(
                Seq::empty(),
                encode_utf8(#[trigger] themes[i]),
            ) matches Some(p) ==> ok(p)) by {
                assert(themes[i] == m.color_themes->Some_0[i]);
            }
            lemma_colors_paths(tree, st0, themes, themes.len() as int, ok);
        },
        (None, None, Some(themes)) => {
            assert forall|i: int, p: Seq<u8>|
                0 <= i < themes.len() && #[trigger] theme_brings(tree, themes[i], p) implies ok(
                p,
            ) by {
                assert(theme_brings(tree, m.icon_themes->Some_0[i], p));
            }
            lemma_icon_themes_paths(tree, st0, icon_key, themes, themes.len() as int, ok);
        },
        (None, None, None) => {},
    }
    let (st1, r1) = stage_kind(tree, st0, icon_key, m);
    assert(all_paths(st1.staged, ok));
    let staged = plan_of(tree, m, login).staged;
    if r1 is Ok {
        if let Some(d) = tree_get(tree, readme_path()) {
            lemma_put_paths(st1.staged, ok, readme_path(), d);
        }
        let st2 = stage_readme(tree, st1, readme_key);
        if let Some(i) = m.icon {
            if let Some((p, d)) = asset_at(tree, Seq::empty(), i) {
                lemma_put_paths(st2.staged, ok, p, d);
            }
        }
    }
    assert(all_paths(staged, ok));
    lemma_put_paths(staged, ok, manifest_path(), text);
}


/// Whether the file that a declared path names, read from `dir`, is staged
/// as the package holds it.
pub open spec fn covered(
    tree: Seq<FileEntryView>,
    staged: Seq<FileEntryView>,
    dir: Seq<Seq<u8>>,
    declared: Seq<char>,
) -> bool {
    match declared_target(dir, encode_utf8(declared)) {
        Some(p) => shares(staged, tree, p),
        None => false,
    }
}

proof fn lemma_covered_stays(
    tree: Seq<FileEntryView>,
    before: Seq<FileEntryView>,
    after: Seq<FileEntryView>,
    dir: Seq<Seq<u8>>,
    declared: Seq<char>,
)
    requires
        keeps(after, before, tree),
        covered(tree, before, dir, declared),
    ensures
        covered(tree, after, dir, declared),
{
    let p = declared_target(dir, encode_utf8(declared))->Some_0;
    assert(shares(before, tree, p));
}

proof fn lemma_required_covers(
    tree: Seq<FileEntryView>,
    st: StageView,
    declared: Seq<char>,
    role: AssetRole,
)
    requires
        tree_wf(st.staged),
    ensures
        stage_required(tree, st, declared, role).1 is Ok ==> covered(
            tree,
            stage_required(tree, st, declared, role).0.staged,
            Seq::empty(),
            declared,
        ),
{
    if let Some((p, d)) = asset_at(tree, Seq::empty(), declared) {
        lemma_put_keeps(tree, st.staged, p, d);
    }
}

proof fn lemma_colors_cover(
    tree: Seq<FileEntryView>,
    st: StageView,
    themes: Seq<Seq<char>>,
    n: int,
)
    requires
        tree_wf(st.staged),
        0 <= n <= themes.len(),
    ensures
        stage_colors(tree, st, themes, n).1 is Ok ==> forall|i: int|
            0 <= i < n ==> covered(
                tree,
                stage_colors(tree, st, themes, n).0.staged,
                Seq::empty(),
                #[trigger] themes[i],
            ),
    decreases n,
{
    if n > 0 {
        lemma_colors_cover(tree, st, themes, n - 1);
        lemma_colors_local(tree, tree, st, themes, n - 1);
        let (s1, r1) = stage_colors(tree, st, themes, n - 1);
        if r1 is Ok {
            lemma_required_local(tree, tree, s1, themes[n - 1], AssetRole::ColorTheme);
            lemma_required_covers(tree, s1, themes[n - 1], AssetRole::ColorTheme);
            let (s2, r2) = stage_required(tree, s1, themes[n - 1], AssetRole::ColorTheme);
            if r2 is Ok {
                assert forall|i: int| 0 <= i < n implies covered(
                    tree,
                    s2.staged,
                    Seq::empty(),
                    #[trigger] themes[i],
                ) by {
                    if i < n - 1 {
                        lemma_covered_stays(tree, s1.staged, s2.staged, Seq::empty(), themes[i]);
                    }
                }
            }
        }
    }
}

proof fn lemma_icons_cover(
    tree: Seq<FileEntryView>,
    st: StageView,
    icon_key: Seq<char>,
    dir: Seq<Seq<u8>>,
    icons: Seq<Seq<char>>,
    n: int,
)
    requires
        tree_wf(st.staged),
        0 <= n <= icons.len(),
    ensures
        stage_icons(tree, st, icon_key, dir, icons, n).1 is Ok ==> forall|j: int|
            0 <= j < n ==> covered(
                tree,
                stage_icons(tree, st, icon_key, dir, icons, n).0.staged,
                dir,
                #[trigger] icons[j],
            ),
    decreases n,
{
    if n > 0 {
        lemma_icons_cover(tree, st, icon_key, dir, icons, n - 1);
        lemma_icons_local(tree, tree, st, icon_key, dir, icons, n - 1);
        let (s1, r1) = stage_icons(tree, st, icon_key, dir, icons, n - 1);
        if r1 is Ok {
            if let Some((p, d)) = asset_at(tree, dir, icons[n - 1]) {
                let up = s1.with_upload(ObjectView { key: icon_key, bytes: d, content_type: None });
                lemma_put_keeps(tree, up.staged, p, d);
                let s2 = up.with_file(p, d);
                assert forall|j: int| 0 <= j < n implies covered(
                    tree,
                    s2.staged,
                    dir,
                    #[trigger] icons[j],
                ) by {
                    if j < n - 1 {
                        lemma_covered_stays(tree, s1.staged, s2.staged, dir, icons[j]);
                    }
                }
            }
        }
    }
}

proof fn lemma_icon_theme_covers(
    tree: Seq<FileEntryView>,
    st: StageView,
    icon_key: Seq<char>,
    theme: Seq<char>,
)
    requires
        tree_wf(st.staged),
    ensures
        stage_icon_theme(tree, st, icon_key, theme).1 is Ok ==> forall|p: Seq<u8>| #[trigger]
            theme_brings(tree, theme, p) ==> shares(
                stage_icon_theme(tree, st, icon_key, theme).0.staged,
                tree,
                p,
            ),
{
    match (asset_at(tree, Seq::empty(), theme), declared_dir(encode_utf8(theme))) {
        (Some((tp, d)), Some(dir)) => {
            lemma_put_keeps(tree, st.staged, tp, d);
            let s1 = st.with_file(tp, d);
            if let Some(icons) = theme_icons_of(d) {
                lemma_icons_cover(tree, s1, icon_key, dir, icons, icons.len() as int);
                lemma_icons_local(tree, tree, s1, icon_key, dir, icons, icons.len() as int);
                let (s2, r2) = stage_icons(tree, s1, icon_key, dir, icons, icons.len() as int);
                if r2 is Ok {
                    assert forall|p: Seq<u8>| #[trigger] theme_brings(tree, theme, p) implies shares(
                        s2.staged,
                        tree,
                        p,
                    ) by {
                        if declared_target(Seq::empty(), encode_utf8(theme)) == Some(p) {
                            assert(shares(s1.staged, tree, p));
                        } else {
                            let j = choose|j: int|
                                0 <= j < icons.len() && declared_target(
                                    dir,
                                    encode_utf8(#[trigger] icons[j]),
                                ) == Some(p);
                            assert(covered(tree, s2.staged, dir, icons[j]));
                        }
                    }
                }
            }
        },
        _ => {},
    }
}

proof fn lemma_icon_themes_cover(
    tree: Seq<FileEntryView>,
    st: StageView,
    icon_key: Seq<char>,
    themes: Seq<Seq<char>>,
    n: int,
)
    requires
        tree_wf(st.staged),
        0 <= n <= themes.len(),
    ensures
        stage_icon_themes(tree, st, icon_key, themes, n).1 is Ok ==> forall|i: int, p: Seq<u8>|
            0 <= i < n && #[trigger] theme_brings(tree, themes[i], p) ==> shares(
                stage_icon_themes(tree, st, icon_key, themes, n).0.staged,
                tree,
                p,
            ),
    decreases n,
{
    if n > 0 {
        lemma_icon_themes_cover(tree, st, icon_key, themes, n - 1);
        lemma_icon_themes_local(tree, tree, st, icon_key, themes, n - 1);
        let (s1, r1) = stage_icon_themes(tree, st, icon_key, themes, n - 1);
        if r1 is Ok {
            lemma_icon_theme_local(tree, tree, s1, icon_key, themes[n - 1]);
            lemma_icon_theme_covers(tree, s1, icon_key, themes[n - 1]);
            let (s2, r2) = stage_icon_theme(tree, s1, icon_key, themes[n - 1]);
            if r2 is Ok {
                assert forall|i: int, p: Seq<u8>|
                    0 <= i < n && #[trigger] theme_brings(tree, themes[i], p) implies shares(
                    s2.staged,
                    tree,
                    p,
                ) by {
                    if i < n - 1 {
                        assert(shares(s1.staged, tree, p));
                    }
                }
            }
        }
    }
}

/// Everything the manifest declares is packed as the package holds it:
/// where a package passes the checks, every file that its manifest
/// declares and that the package holds, but for the manifest itself, is
/// packed under the same path with the same contents. That is the wasm
/// module, every theme and every icon a theme refers to, and the readme and
/// the icon where the package holds them.
pub proof fn lemma_declared_files_are_packed(
    tree: Seq<FileEntryView>,
    m: ManifestView,
    login: Seq<char>,
    text: Seq<u8>,
)
    requires
        plan_of(tree, m, login).outcome is Ok,
        kinds_declared(m) <= 1,
    ensures
        forall|p: Seq<u8>|
            #[trigger] is_declared(tree, m, p) && p != manifest_path() && tree_get(tree, p)
                is Some ==> tree_get(packed_files(plan_of(tree, m, login).staged, text), p)
                == tree_get(tree, p),
{
    let icon_key = key_of(login, m.name, m.version, Artifact::Icon);
    let readme_key = key_of(login, m.name, m.version, Artifact::Readme);
    let empty = Seq::<FileEntryView>::empty();
    let none = Seq::<u8>::empty();
    crate::archive::lemma_tree_put_wf(empty, manifest_path(), none);
    let st0 = StageView { uploads: Seq::empty(), staged: tree_put(empty, manifest_path(), none) };
    lemma_kind_local(tree, tree, st0, icon_key, m);
    let (st1, r1) = stage_kind(tree, st0, icon_key, m);
    match (m.wasm, m.color_themes, m.icon_themes) {
        (Some(w), _, _) => {
            lemma_required_covers(tree, st0, w, AssetRole::Wasm);
        },
        (None, Some(themes), _) => {
            lemma_colors_cover(tree, st0, themes, themes.len() as int);
        },
        (None, None, Some(themes)) => {
            lemma_icon_themes_cover(tree, st0, icon_key, themes, themes.len() as int);
        },
        (None, None, None) => {},
    }
    let st2 = stage_readme(tree, st1, readme_key);
    match tree_get(tree, readme_path()) {
        Some(d) => {
            let up = st1.with_upload(ObjectView { key: readme_key, bytes: d, content_type: None });
            lemma_put_keeps(tree, up.staged, readme_path(), d);
        },
        None => {
            lemma_keeps_self(st1.staged, tree);
        },
    }
    let st3 = stage_icon(tree, st2, icon_key, m.icon);
    match m.icon {
        Some(i) => match asset_at(tree, Seq::empty(), i) {
            Some((p, d)) => {
                let up = st2.with_upload(
                    ObjectView {
                        key: icon_key,
                        bytes: d,
                        content_type: Some(mime_of(image_kind_of(p))),
                    },
                );
                lemma_put_keeps(tree, up.staged, p, d);
            },
            None => {
                lemma_keeps_self(st2.staged, tree);
            },
        },
        None => {
            lemma_keeps_self(st2.staged, tree);
        },
    }
    lemma_keeps_chain(st3.staged, st2.staged, st1.staged, tree);
    let staged = plan_of(tree, m, login).staged;
    assert(staged == st3.staged);
    crate::archive::lemma_tree_put_wf(staged, manifest_path(), text);
    let packed = packed_files(staged, text);
    assert forall|p: Seq<u8>|
        #[trigger] is_declared(tree, m, p) && p != manifest_path() && tree_get(tree, p)
            is Some implies tree_get(packed, p) == tree_get(tree, p) by {
        assert(tree_get(packed, p) == tree_get(staged, p));
        if p == readme_path() {
            assert(shares(st2.staged, tree, p));
            assert(shares(st3.staged, tree, p));
        } else if m.icon is Some && declared_target(Seq::empty(), encode_utf8(m.icon->Some_0))
            == Some(p) {
            assert(shares(st3.staged, tree, p));
        } else if m.wasm is Some && declared_target(Seq::empty(), encode_utf8(m.wasm->Some_0))
            == Some(p) {
            assert(covered(tree, st1.staged, Seq::empty(), m.wasm->Some_0));
            assert(shares(st1.staged, tree, p));
            assert(shares(st3.staged, tree, p));
        } else if m.color_themes is Some && exists|i: int|
            0 <= i < m.color_themes->Some_0.len() && declared_target(
                Seq::empty(),
                encode_utf8(#[trigger] m.color_themes->Some_0[i]),
            ) == Some(p) {
            let themes = m.color_themes->Some_0;
            let i = choose|i: int|
                0 <= i < themes.len() && declared_target(
                    Seq::empty(),
                    encode_utf8(#[trigger] themes[i]),
                ) == Some(p);
            assert(covered(tree, st1.staged, Seq::empty(), themes[i]));
            assert(shares(st1.staged, tree, p));
            assert(shares(st3.staged, tree, p));
        } else {
            let themes = m.icon_themes->Some_0;
            let i = choose|i: int|
                0 <= i < themes.len() && theme_brings(tree, #[trigger] themes[i], p);
            assert(theme_brings(tree, themes[i], p));
            assert(shares(st1.staged, tree, p));
            assert(shares(st3.staged, tree, p));
        }
    }
}


/// What a publish that succeeded has stored: under the archive key of the
/// publisher, the name in lower case and the version lies an archive that
/// unpacks to the staged files with the manifest in its place; and that
/// manifest is the uploaded one, byte for byte, where the uploaded one
/// already reads as the manifest the upload is published under.
pub proof fn lemma_published_archive_unpacks(
    db: DbView,
    store: Seq<ObjectView>,
    token: Seq<char>,
    upload: Seq<u8>,
    now: i64,
    rendered: Option<Seq<u8>>,
)
    requires
        store_wf(store),
    ensures
        publish_outcome(db, store, token, upload, now, rendered).2 is Ok ==> ({
            let after = publish_outcome(db, store, token, upload, now, rendered).1;
            let (a0, auth) = db.authenticate(digest_of(token), now);
            let ui = first_match(a0.users, user_has_id(auth->Ok_0.user_id))->Some_0;
            let login = a0.users[ui].gh_login;
            let (tree, m) = accepted_package(upload, login)->Ok_0;
            let text = staged_text(tree, m, rendered)->Some_0;
            let files = packed_files(plan_of(tree, m, login).staged, text);
            &&& crate::storage::store_get(after, key_of(login, m.name, m.version, Artifact::Archive))
                matches Some(o)
            &&& tree_of_upload(o.bytes) == Some(files)
            &&& tree_get(files, manifest_path()) == Some(text)
            &&& tree_get(tree_of_upload(upload)->Some_0, manifest_path()) matches Some(own)
            &&& manifest_of(own) == Some(m) ==> text == own
        }),
{
    let (a0, auth) = db.authenticate(digest_of(token), now);
    if let Ok(t) = auth {
        if let Some(ui) = first_match(a0.users, user_has_id(t.user_id)) {
            let login = a0.users[ui].gh_login;
            if let Ok((tree, m)) = accepted_package(upload, login) {
                if let Some(text) = staged_text(tree, m, rendered) {
                    lemma_stored_archive_unpacks(
                        a0,
                        store,
                        a0.users[ui].id,
                        login,
                        tree,
                        m,
                        text,
                        now,
                    );
                    lemma_packed_files_are_package_files(tree, m, login, text);
                }
            }
        }
    }
}

} // verus!
