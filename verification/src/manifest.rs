//! The manifest of a package and the icon theme files it may list. Both are
//! TOML; `toml_edit` reads and writes them, and the manifest's shape is
//! `lapce_rpc::plugin::VoltMetadata`.

use crate::models::opt_view;
use crate::text::same_text;
use lapce_rpc::plugin::VoltMetadata;
use vstd::prelude::*;

verus! {

/// `lapce_rpc::plugin::VoltMetadata`, the manifest as the editor defines it.
/// Declared opaque: a value of it is carried from the parser to the
/// serializer, and nothing is claimed of what it holds.
#[verifier::external_type_specification]
#[verifier::external_body]
pub struct ExVoltMetadata(VoltMetadata);

/// A package's manifest: the fields the registry reads, and the document
/// they were read from.
#[derive(Debug)]
pub struct Manifest {
    pub name: String,
    pub version: String,
    pub display_name: String,
    pub author: String,
    pub description: String,
    pub icon: Option<String>,
    pub repository: Option<String>,
    pub wasm: Option<String>,
    pub color_themes: Option<Vec<String>>,
    pub icon_themes: Option<Vec<String>>,
    pub raw: VoltMetadata,
}

/// A [`Manifest`] as contracts see it: the fields, without the document.
pub struct ManifestView {
    pub name: Seq<char>,
    pub version: Seq<char>,
    pub display_name: Seq<char>,
    pub author: Seq<char>,
    pub description: Seq<char>,
    pub icon: Option<Seq<char>>,
    pub repository: Option<Seq<char>>,
    pub wasm: Option<Seq<char>>,
    pub color_themes: Option<Seq<Seq<char>>>,
    pub icon_themes: Option<Seq<Seq<char>>>,
}

/// A list of strings as contracts see it.
pub open spec fn strings_view(v: Seq<String>) -> Seq<Seq<char>> {
    v.map_values(|s: String| s@)
}

/// An optional list of strings as contracts see it.
pub open spec fn opt_strings_view(v: Option<Vec<String>>) -> Option<Seq<Seq<char>>> {
    match v {
        Some(v) => Some(strings_view(v@)),
        None => None,
    }
}

impl View for Manifest {
    type V = ManifestView;

    open spec fn view(&self) -> ManifestView {
        ManifestView {
            name: self.name@,
            version: self.version@,
            display_name: self.display_name@,
            author: self.author@,
            description: self.description@,
            icon: opt_view(self.icon),
            repository: opt_view(self.repository),
            wasm: opt_view(self.wasm),
            color_themes: opt_strings_view(self.color_themes),
            icon_themes: opt_strings_view(self.icon_themes),
        }
    }
}

/// An optional manifest as contracts see it.
pub open spec fn opt_manifest_view(m: Option<Manifest>) -> Option<ManifestView> {
    match m {
        Some(m) => Some(m@),
        None => None,
    }
}

/// What a manifest file deserializes to, or nothing where it is no TOML
/// document of the manifest's shape.
pub uninterp spec fn parsed_manifest_of(text: Seq<u8>) -> Option<ManifestView>;

/// In the TOML document `text`, the values of the table `inner` of the table
/// `outer`, in the order the parsed table lists them; nothing where the
/// document does not parse, has no such table, or one of the values is not
/// a string.
pub uninterp spec fn parsed_strings_of(text: Seq<u8>, outer: Seq<char>, inner: Seq<char>) -> Option<
    Seq<Seq<char>>,
>;

/// How many opening brackets and braces a TOML text may hold to be read.
pub const MAX_BRACKETS: usize = 16;

/// How deep the tables of a TOML text may at most lie to be read.
pub const MAX_DEPTH: usize = 256;

/// What a scan of a TOML text has counted: the opening brackets and braces
/// so far, the dots on the lines that held one, the most dots on a line
/// that held none, and the dots and whether a bracket on the line at hand.
pub struct Depth {
    pub brackets: nat,
    pub chained: nat,
    pub loose: nat,
    pub line_dots: nat,
    pub line_bracket: bool,
}

/// The count once the line at hand has ended.
pub open spec fn end_line(d: Depth) -> Depth {
    if d.line_bracket {
        Depth { chained: d.chained + d.line_dots, line_dots: 0, line_bracket: false, ..d }
    } else if d.line_dots > d.loose {
        Depth { loose: d.line_dots, line_dots: 0, ..d }
    } else {
        Depth { line_dots: 0, ..d }
    }
}

/// The count after one more byte: a line feed ends the line, `[` and `{`
/// are brackets, `.` is a dot.
pub open spec fn depth_step(d: Depth, b: u8) -> Depth {
    if b == 10 {
        end_line(d)
    } else if b == 91 || b == 123 {
        Depth { brackets: d.brackets + 1, line_bracket: true, ..d }
    } else if b == 46 {
        Depth { line_dots: d.line_dots + 1, ..d }
    } else {
        d
    }
}

/// The count after the first `n` bytes of a text.
pub open spec fn depth_upto(text: Seq<u8>, n: int) -> Depth
    decreases n,
{
    if n <= 0 || n > text.len() {
        Depth { brackets: 0, chained: 0, loose: 0, line_dots: 0, line_bracket: false }
    } else {
        depth_step(depth_upto(text, n - 1), text[n - 1])
    }
}

/// Whether a TOML text is shallow enough to be read. Every table, array and
/// inline table of a document lies under at most one table for each opening
/// bracket or brace of the text, one for each dot of a key that leads to
/// it, and one for each key. A key leads on only on a line that holds a
/// bracket, so the brackets, the dots on lines with a bracket and the most
/// dots on a line without one bound how deep anything lies. The parser goes
/// one call deeper for each level, and a text that is not shallow could
/// exhaust the stack.
pub open spec fn is_shallow(text: Seq<u8>) -> bool {
    let d = end_line(depth_upto(text, text.len() as int));
    d.brackets <= MAX_BRACKETS && 2 * d.brackets + d.chained + d.loose + 2 <= MAX_DEPTH
}

/// What a manifest file reads as: what it deserializes to where it is
/// shallow, and nothing where it is not.
pub open spec fn manifest_of(text: Seq<u8>) -> Option<ManifestView> {
    if is_shallow(text) {
        parsed_manifest_of(text)
    } else {
        None
    }
}

/// The values of the table `inner` of the table `outer` of a TOML text,
/// where the text is shallow.
pub open spec fn toml_strings_of(text: Seq<u8>, outer: Seq<char>, inner: Seq<char>) -> Option<
    Seq<Seq<char>>,
> {
    if is_shallow(text) {
        parsed_strings_of(text, outer, inner)
    } else {
        None
    }
}

/// Whether a TOML text is shallow enough to be read.
pub fn shallow(text: &[u8]) -> (r: bool)
    ensures
        r == is_shallow(text@),
{
    let mut brackets: usize = 0;
    let mut chained: usize = 0;
    let mut loose: usize = 0;
    let mut line_dots: usize = 0;
    let mut line_bracket = false;
    let mut i: usize = 0;
    while i < text.len()
        invariant
            i <= text.len(),
            brackets <= i,
            chained + line_dots <= i,
            loose <= i,
            depth_upto(text@, i as int) == (Depth {
                brackets: brackets as nat,
                chained: chained as nat,
                loose: loose as nat,
                line_dots: line_dots as nat,
                line_bracket,
            }),
        decreases text.len() - i,
    {
        let b = text[i];
        if b == 10 {
            if line_bracket {
                chained = chained + line_dots;
                line_bracket = false;
            } else if line_dots > loose {
                loose = line_dots;
            }
            line_dots = 0;
        } else if b == 91 || b == 123 {
            brackets = brackets + 1;
            line_bracket = true;
        } else if b == 46 {
            line_dots = line_dots + 1;
        }
        i += 1;
    }
    if line_bracket {
        chained = chained + line_dots;
    } else if line_dots > loose {
        loose = line_dots;
    }
    brackets <= MAX_BRACKETS && chained <= MAX_DEPTH && loose <= MAX_DEPTH && 2 * brackets + chained
        + loose + 2 <= MAX_DEPTH
}

/// Deserializes `text` with `toml_edit::easy::from_slice` into a
/// `VoltMetadata` and copies its fields out. Trusted: the fields are what the
/// deserializer yields for `text`, or the result is `None` where it reports
/// an error. The parser and the deserializer call themselves once for each
/// level of nesting, so only a shallow text is handed to them.
#[verifier::external_body]
fn parse_manifest(text: &[u8]) -> (r: Option<Manifest>)
    requires
        is_shallow(text@),
    ensures
        opt_manifest_view(r) == parsed_manifest_of(text@),
{
    let v = toml_edit::easy::from_slice::<VoltMetadata>(text).ok()?;
    Some(
        Manifest {
            name: v.name.clone(), version: v.version.clone(),
            display_name: v.display_name.clone(), author: v.author.clone(),
            description: v.description.clone(), icon: v.icon.clone(),
            repository: v.repository.clone(), wasm: v.wasm.clone(),
            color_themes: v.color_themes.clone(), icon_themes: v.icon_themes.clone(),
            raw: v,
        },
    )
}

/// Serializes the document a manifest was read from with
/// `toml_edit::easy::to_string_pretty`, after putting the manifest's `name`
/// and `author` into it. Nothing is promised of the text: the serializer
/// walks a hash map, so the order of its tables is not fixed.
#[verifier::external_body]
fn render_manifest(m: &Manifest) -> (r: Option<Vec<u8>>)
{
    let mut v = m.raw.clone();
    v.name = m.name.clone();
    v.author = m.author.clone();
    toml_edit::easy::to_string_pretty(&v).ok().map(String::into_bytes)
}

/// Parses `text` with `toml_edit::easy::from_slice` into a
/// `toml_edit::easy::Value` and lists the values of the table `inner` of its
/// table `outer` as strings, as `Map::values` yields them. Trusted: the
/// result is that list, or `None` where the parser reports an error, a table
/// is missing or a value is not a string. Only a shallow text is handed to
/// the parser, which calls itself once for each level of nesting.
#[verifier::external_body]
fn toml_strings(text: &[u8], outer: &str, inner: &str) -> (r: Option<Vec<String>>)
    requires
        is_shallow(text@),
    ensures
        opt_strings_view(r) == parsed_strings_of(text@, outer@, inner@),
{
    let doc = toml_edit::easy::from_slice::<toml_edit::easy::Value>(text).ok()?;
    let table = doc.get(outer)?.get(inner)?.as_table()?;
    table.values().map(|v| v.as_str().map(str::to_string)).collect()
}

/// A list without its repeats: of equal entries only the first stays.
pub open spec fn without_repeats(s: Seq<Seq<char>>) -> Seq<Seq<char>>
    decreases s.len(),
{
    if s.len() == 0 {
        s
    } else {
        let rest = without_repeats(s.drop_last());
        if rest.contains(s.last()) {
            rest
        } else {
            rest.push(s.last())
        }
    }
}

/// The icons an icon theme file refers to: the values of its tables `ui`,
/// `filename`, `foldername` and `extension` under `icon-theme`, in that
/// order and without repeats. Nothing where the file does not parse, nests
/// its tables too deep to be read, or lacks one of the four tables.
pub open spec fn theme_icons_of(text: Seq<u8>) -> Option<Seq<Seq<char>>> {
    match (
        toml_strings_of(text, "icon-theme"@, "ui"@),
        toml_strings_of(text, "icon-theme"@, "filename"@),
        toml_strings_of(text, "icon-theme"@, "foldername"@),
        toml_strings_of(text, "icon-theme"@, "extension"@),
    ) {
        (Some(a), Some(b), Some(c), Some(d)) => Some(without_repeats(a + b + c + d)),
        _ => None,
    }
}

fn contains_text(list: &Vec<String>, s: &str) -> (r: bool)
    ensures
        r == strings_view(list@).contains(s@),
{
    let mut i: usize = 0;
    while i < list.len()
        invariant
            i <= list.len(),
            forall|j: int| 0 <= j < i ==> strings_view(list@)[j] != s@,
        decreases list.len() - i,
    {
        if same_text(list[i].as_str(), s) {
            assert(strings_view(list@)[i as int] == s@);
            return true;
        }
        i += 1;
    }
    false
}

fn append_distinct(out: &mut Vec<String>, seen: Ghost<Seq<Seq<char>>>, more: Vec<String>)
    requires
        strings_view(old(out)@) == without_repeats(seen@),
    ensures
        strings_view(final(out)@) == without_repeats(seen@ + strings_view(more@)),
{
    let ghost m = strings_view(more@);
    let mut i: usize = 0;
    assert(seen@ + m.subrange(0, 0) =~= seen@);
    while i < more.len()
        invariant
            i <= more.len(),
            m == strings_view(more@),
            strings_view(out@) == without_repeats(seen@ + m.subrange(0, i as int)),
        decreases more.len() - i,
    {
        let ghost before = strings_view(out@);
        proof {
            let t = seen@ + m.subrange(0, i + 1);
            assert(t.drop_last() =~= seen@ + m.subrange(0, i as int));
            assert(t.last() == m[i as int]);
        }
        if !contains_text(out, more[i].as_str()) {
            out.push(more[i].clone());
            assert(strings_view(out@) =~= before.push(m[i as int]));
        }
        i += 1;
    }
    assert(m.subrange(0, i as int) =~= m);
}

/// How many kinds of plugin a manifest declares itself to be: a wasm module,
/// colour themes, icon themes.
pub open spec fn kinds_declared(m: ManifestView) -> nat {
    (if m.wasm is Some {
        1nat
    } else {
        0nat
    }) + (if m.color_themes is Some {
        1nat
    } else {
        0nat
    }) + (if m.icon_themes is Some {
        1nat
    } else {
        0nat
    })
}

impl Manifest {
    /// How many kinds of plugin the manifest declares itself to be.
    pub fn kinds(&self) -> (r: u8)
        ensures
            r == kinds_declared(self@),
    {
        let mut n: u8 = 0;
        if self.wasm.is_some() {
            n = n + 1;
        }
        if self.color_themes.is_some() {
            n = n + 1;
        }
        if self.icon_themes.is_some() {
            n = n + 1;
        }
        n
    }

    /// Reads a manifest file. `None` where it is no manifest, or nests its
    /// tables too deep to be read.
    pub fn parse(text: &[u8]) -> (r: Option<Manifest>)
        ensures
            opt_manifest_view(r) == manifest_of(text@),
    {
        if shallow(text) {
            parse_manifest(text)
        } else {
            None
        }
    }

    /// Whether two manifests have the same fields.
    pub fn same_fields(&self, other: &Manifest) -> (r: bool)
        ensures
            r == (self@ == other@),
    {
        same_text(self.name.as_str(), other.name.as_str()) && same_text(
            self.version.as_str(),
            other.version.as_str(),
        ) && same_text(self.display_name.as_str(), other.display_name.as_str()) && same_text(
            self.author.as_str(),
            other.author.as_str(),
        ) && same_text(self.description.as_str(), other.description.as_str())
            && crate::text::same_opt_text(&self.icon, &other.icon) && crate::text::same_opt_text(
            &self.repository,
            &other.repository,
        ) && crate::text::same_opt_text(&self.wasm, &other.wasm) && same_opt_strings(
            &self.color_themes,
            &other.color_themes,
        ) && same_opt_strings(&self.icon_themes, &other.icon_themes)
    }

    /// Writes the manifest as TOML, and hands the text out only where it
    /// reads back as this manifest: with the name and the author that the
    /// manifest has now, whatever the document it was read from said.
    /// `None` where the manifest cannot be written or the text does not read
    /// back.
    pub(crate) fn render(&self) -> (r: Option<Vec<u8>>)
        ensures
            r matches Some(text) ==> manifest_of(text@) == Some(self@),
    {
        let text = match render_manifest(self) {
            Some(text) => text,
            None => {
                return None;
            },
        };
        match Manifest::parse(text.as_slice()) {
            Some(back) => {
                if back.same_fields(self) {
                    Some(text)
                } else {
                    None
                }
            },
            None => None,
        }
    }
}

/// Whether two lists hold the same strings in the same order.
pub fn same_strings(a: &Vec<String>, b: &Vec<String>) -> (r: bool)
    ensures
        r == (strings_view(a@) == strings_view(b@)),
{
    if a.len() != b.len() {
        assert(strings_view(a@).len() != strings_view(b@).len());
        return false;
    }
    let mut i: usize = 0;
    while i < a.len()
        invariant
            i <= a.len(),
            a.len() == b.len(),
            forall|j: int| 0 <= j < i ==> strings_view(a@)[j] == strings_view(b@)[j],
        decreases a.len() - i,
    {
        if !same_text(a[i].as_str(), b[i].as_str()) {
            assert(strings_view(a@)[i as int] != strings_view(b@)[i as int]);
            return false;
        }
        i += 1;
    }
    assert(strings_view(a@) =~= strings_view(b@));
    true
}

/// Whether two optional lists are both absent or hold the same strings.
pub fn same_opt_strings(a: &Option<Vec<String>>, b: &Option<Vec<String>>) -> (r: bool)
    ensures
        r == (opt_strings_view(*a) == opt_strings_view(*b)),
{
    match (a, b) {
        (Some(x), Some(y)) => same_strings(x, y),
        (None, None) => true,
        _ => false,
    }
}

/// The icons an icon theme file refers to.
pub fn theme_icons(text: &[u8]) -> (r: Option<Vec<String>>)
    ensures
        opt_strings_view(r) == theme_icons_of(text@),
{
    if !shallow(text) {
        return None;
    }
    let a = toml_strings(text, "icon-theme", "ui");
    let b = toml_strings(text, "icon-theme", "filename");
    let c = toml_strings(text, "icon-theme", "foldername");
    let d = toml_strings(text, "icon-theme", "extension");
    match (a, b, c, d) {
        (Some(a), Some(b), Some(c), Some(d)) => {
            let mut out: Vec<String> = Vec::new();
            let ghost e = Seq::<Seq<char>>::empty();
            assert(strings_view(out@) =~= without_repeats(e));
            let ghost av = strings_view(a@);
            let ghost bv = strings_view(b@);
            let ghost cv = strings_view(c@);
            append_distinct(&mut out, Ghost(e), a);
            assert(e + av =~= av);
            append_distinct(&mut out, Ghost(av), b);
            append_distinct(&mut out, Ghost(av + bv), c);
            append_distinct(&mut out, Ghost(av + bv + cv), d);
            Some(out)
        },
        _ => None,
    }
}

} // verus!
