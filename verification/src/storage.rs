//! The artifact store: objects under deterministic keys, one archive, one
//! readme and one icon for each version of a plugin.

use crate::error::Error;
use crate::models::opt_view;
use crate::paths::{DOT, SLASH};
use crate::seqs::{first_match, lemma_first_match_absent, lemma_first_match_found};
use crate::text::{copy_bytes, fields_of, fields_view, same_text, split_bytes};
use vstd::prelude::*;
use vstd::string::*;

verus! {

/// The three artifacts of a version.
#[derive(Clone, Copy, Debug, PartialEq, Eq, Structural)]
pub enum Artifact {
    Archive,
    Readme,
    Icon,
}

/// The last part of an artifact's key.
pub open spec fn artifact_name(a: Artifact) -> Seq<char> {
    match a {
        Artifact::Archive => "archive"@,
        Artifact::Readme => "readme"@,
        Artifact::Icon => "icon"@,
    }
}

/// The key of an artifact: `{owner_login}/{plugin_name}/{version}/{artifact}`.
pub open spec fn key_of(owner: Seq<char>, name: Seq<char>, version: Seq<char>, a: Artifact) -> Seq<
    char,
> {
    owner + "/"@ + name + "/"@ + version + "/"@ + artifact_name(a)
}

/// Builds the key of an artifact.
pub fn artifact_key(owner: &str, name: &str, version: &str, a: Artifact) -> (r: String)
    ensures
        r@ == key_of(owner@, name@, version@, a),
{
    let mut key = owner.to_owned();
    key.append("/");
    key.append(name);
    key.append("/");
    key.append(version);
    key.append("/");
    match a {
        Artifact::Archive => key.append("archive"),
        Artifact::Readme => key.append("readme"),
        Artifact::Icon => key.append("icon"),
    }
    key
}

/// What kind of image a file name's extension announces.
#[derive(Clone, Copy, Debug, PartialEq, Eq, Structural)]
pub enum ImageKind {
    Png,
    Jpeg,
    Svg,
    Other,
}

/// The extension of a file name: what follows its last dot, unless the only
/// dot is the one the name begins with.
pub open spec fn extension_of(name: Seq<u8>) -> Option<Seq<u8>> {
    let f = fields_of(name, DOT);
    if f.len() < 2 || (f.len() == 2 && f[0].len() == 0) {
        None
    } else {
        Some(f.last())
    }
}

/// The kind of image that the extension of a path's file name announces:
/// `png`, `jpg` or `jpeg`, `svg`, in lower case; anything else is `Other`.
pub open spec fn image_kind_of(path: Seq<u8>) -> ImageKind {
    match extension_of(fields_of(path, SLASH).last()) {
        Some(e) => if e == seq![112u8, 110, 103] {
            ImageKind::Png
        } else if e == seq![106u8, 112, 103] || e == seq![106u8, 112, 101, 103] {
            ImageKind::Jpeg
        } else if e == seq![115u8, 118, 103] {
            ImageKind::Svg
        } else {
            ImageKind::Other
        },
        None => ImageKind::Other,
    }
}

/// The content type an image kind is stored with.
pub open spec fn mime_of(kind: ImageKind) -> Seq<char> {
    match kind {
        ImageKind::Png => "image/png"@,
        ImageKind::Jpeg => "image/jpeg"@,
        ImageKind::Svg => "image/svg+xml"@,
        ImageKind::Other => "image/*"@,
    }
}

fn is3(e: &Vec<u8>, a: u8, b: u8, c: u8) -> (r: bool)
    ensures
        r == (e@ == seq![a, b, c]),
{
    if e.len() == 3 && e[0] == a && e[1] == b && e[2] == c {
        assert(e@ =~= seq![a, b, c]);
        true
    } else {
        if e.len() == 3 {
            assert(seq![a, b, c][0] == a && seq![a, b, c][1] == b && seq![a, b, c][2] == c);
        } else {
            assert(seq![a, b, c].len() == 3);
        }
        false
    }
}

fn is_jpeg(e: &Vec<u8>) -> (r: bool)
    ensures
        r == (e@ == seq![106u8, 112, 101, 103]),
{
    let ghost t = seq![106u8, 112, 101, 103];
    if e.len() == 4 && e[0] == 106 && e[1] == 112 && e[2] == 101 && e[3] == 103 {
        assert(e@ =~= t);
        true
    } else {
        if e.len() == 4 {
            assert(t[0] == 106 && t[1] == 112 && t[2] == 101 && t[3] == 103);
        } else {
            assert(t.len() == 4);
        }
        false
    }
}

/// The kind of image a path announces by its extension.
pub fn image_kind(path: &[u8]) -> (r: ImageKind)
    ensures
        r == image_kind_of(path@),
{
    let parts = split_bytes(path, SLASH);
    let name = &parts[parts.len() - 1];
    assert(fields_view(parts@).last() == name@);
    let f = split_bytes(name.as_slice(), DOT);
    assert(fields_view(f@).len() == f.len());
    if f.len() < 2 || (f.len() == 2 && f[0].len() == 0) {
        assert(fields_view(f@)[0] == f@[0]@);
        return ImageKind::Other;
    }
    assert(fields_view(f@)[0] == f@[0]@);
    let e = &f[f.len() - 1];
    assert(fields_view(f@).last() == e@);
    if is3(e, 112, 110, 103) {
        ImageKind::Png
    } else if is3(e, 106, 112, 103) || is_jpeg(e) {
        ImageKind::Jpeg
    } else if is3(e, 115, 118, 103) {
        ImageKind::Svg
    } else {
        ImageKind::Other
    }
}

/// The content type an image kind is stored with.
pub fn mime(kind: ImageKind) -> (r: &'static str)
    ensures
        r@ == mime_of(kind),
{
    match kind {
        ImageKind::Png => "image/png",
        ImageKind::Jpeg => "image/jpeg",
        ImageKind::Svg => "image/svg+xml",
        ImageKind::Other => "image/*",
    }
}

/// One stored object.
#[derive(Clone, Debug, PartialEq, Eq)]
pub struct Object {
    pub key: String,
    pub bytes: Vec<u8>,
    pub content_type: Option<String>,
}

/// An [`Object`] as contracts see it.
pub struct ObjectView {
    pub key: Seq<char>,
    pub bytes: Seq<u8>,
    pub content_type: Option<Seq<char>>,
}

impl View for Object {
    type V = ObjectView;

    open spec fn view(&self) -> ObjectView {
        ObjectView { key: self.key@, bytes: self.bytes@, content_type: opt_view(self.content_type) }
    }
}

impl Object {
    /// A copy with the same contents.
    pub fn duplicate(&self) -> (r: Object)
        ensures
            r@ == self@,
    {
        Object {
            key: self.key.clone(),
            bytes: copy_bytes(self.bytes.as_slice()),
            content_type: crate::models::duplicate_opt(&self.content_type),
        }
    }
}

/// The objects of a list, as contracts see them.
pub open spec fn objects_view(o: Seq<Object>) -> Seq<ObjectView> {
    o.map_values(|x: Object| x@)
}

/// The object under a given key.
pub open spec fn object_at(key: Seq<char>) -> spec_fn(ObjectView) -> bool {
    |o: ObjectView| o.key == key
}

/// The object under `key`, if there is one.
pub open spec fn store_get(objects: Seq<ObjectView>, key: Seq<char>) -> Option<ObjectView> {
    match first_match(objects, object_at(key)) {
        Some(i) => Some(objects[i]),
        None => None,
    }
}

/// The store with `o` under its key: in place of the object that was there,
/// or behind the others.
pub open spec fn store_put(objects: Seq<ObjectView>, o: ObjectView) -> Seq<ObjectView> {
    match first_match(objects, object_at(o.key)) {
        Some(i) => objects.update(i, o),
        None => objects.push(o),
    }
}

/// The store after the first `n` of a list of objects were put, in order.
pub open spec fn store_put_all(objects: Seq<ObjectView>, puts: Seq<ObjectView>, n: int) -> Seq<
    ObjectView,
>
    decreases n,
{
    if n <= 0 || n > puts.len() {
        objects
    } else {
        store_put(store_put_all(objects, puts, n - 1), puts[n - 1])
    }
}

/// No two objects share a key.
pub open spec fn store_wf(objects: Seq<ObjectView>) -> bool {
    forall|i: int, j: int|
        0 <= i < j < objects.len() ==> (#[trigger] objects[i]).key != (#[trigger] objects[j]).key
}

/// Putting an object keeps keys distinct, makes it the object under its key
/// and leaves every other key as it was.
pub proof fn lemma_store_put(objects: Seq<ObjectView>, o: ObjectView)
    requires
        store_wf(objects),
    ensures
        store_wf(store_put(objects, o)),
        store_get(store_put(objects, o), o.key) == Some(o),
        forall|other: Seq<char>|
            other != o.key ==> #[trigger] store_get(store_put(objects, o), other) == store_get(
                objects,
                other,
            ),
{
    crate::seqs::lemma_first_match_means(objects, object_at(o.key), 0);
    let out = store_put(objects, o);
    let k = match first_match(objects, object_at(o.key)) {
        Some(i) => i,
        None => objects.len() as int,
    };
    assert(out[k] == o);
    assert(first_match(out, object_at(o.key)) == Some(k)) by {
        assert forall|j: int| 0 <= j < k implies !object_at(o.key)(#[trigger] out[j]) by {
            assert(out[j] == objects[j]);
        }
        lemma_first_match_found(out, object_at(o.key), 0, k);
    }
    assert forall|other: Seq<char>| other != o.key implies #[trigger] store_get(out, other)
        == store_get(objects, other) by {
        crate::seqs::lemma_first_match_means(objects, object_at(other), 0);
        match first_match(objects, object_at(other)) {
            Some(i) => {
                assert(out[i] == objects[i]);
                assert forall|j: int| 0 <= j < i implies !object_at(other)(#[trigger] out[j]) by {
                    if j != k {
                        assert(out[j] == objects[j]);
                    }
                }
                lemma_first_match_found(out, object_at(other), 0, i);
            },
            None => {
                assert forall|j: int| 0 <= j < out.len() implies !object_at(other)(
                    #[trigger] out[j],
                ) by {
                    if j != k {
                        assert(out[j] == objects[j]);
                    }
                }
                lemma_first_match_absent(out, object_at(other), 0);
            },
        }
    }
}

/// The artifact store.
pub struct ArtifactStore {
    objects: Vec<Object>,
}

impl View for ArtifactStore {
    type V = Seq<ObjectView>;

    closed spec fn view(&self) -> Seq<ObjectView> {
        objects_view(self.objects@)
    }
}

impl ArtifactStore {
    /// An empty store.
    pub fn new() -> (r: ArtifactStore)
        ensures
            r@ == Seq::<ObjectView>::empty(),
            store_wf(r@),
    {
        let objects: Vec<Object> = Vec::new();
        assert(objects_view(objects@) =~= Seq::<ObjectView>::empty());
        ArtifactStore { objects }
    }

    fn index_of(&self, key: &str) -> (r: Option<usize>)
        ensures
            crate::db::index_agrees(r, first_match(self@, object_at(key@))),
            r matches Some(i) ==> i < self.objects.len(),
    {
        let mut i: usize = 0;
        while i < self.objects.len()
            invariant
                i <= self.objects.len(),
                forall|j: int| 0 <= j < i ==> self.objects@[j].key@ != key@,
            decreases self.objects.len() - i,
        {
            if same_text(self.objects[i].key.as_str(), key) {
                proof {
                    lemma_first_match_found(self@, object_at(key@), 0, i as int);
                }
                return Some(i);
            }
            i += 1;
        }
        proof {
            lemma_first_match_absent(self@, object_at(key@), 0);
        }
        None
    }

    /// Stores an object under its key, over what was there.
    pub fn put(&mut self, o: Object)
        requires
            store_wf(old(self)@),
        ensures
            final(self)@ == store_put(old(self)@, o@),
            store_wf(final(self)@),
    {
        proof {
            lemma_store_put(self@, o@);
        }
        match self.index_of(o.key.as_str()) {
            Some(i) => {
                assert(objects_view(self.objects@.update(i as int, o)) =~= store_put(
                    old(self)@,
                    o@,
                ));
                self.objects.set(i, o);
            },
            None => {
                assert(objects_view(self.objects@.push(o)) =~= store_put(old(self)@, o@));
                self.objects.push(o);
            },
        }
    }

    /// The object under `key`. Fails with `NotFound` where there is none.
    pub fn get(&self, key: &str) -> (r: Result<&Object, Error>)
        ensures
            match r {
                Ok(o) => store_get(self@, key@) == Some(o@),
                Err(e) => store_get(self@, key@) is None && e@ is NotFound,
            },
    {
        match self.index_of(key) {
            Some(i) => Ok(&self.objects[i]),
            None => Err(Error::NotFound),
        }
    }

    /// The content type of the object under `key`, where it has one. Fails
    /// with `NotFound` where there is no object.
    pub fn head(&self, key: &str) -> (r: Result<Option<String>, Error>)
        ensures
            match r {
                Ok(t) => store_get(self@, key@) matches Some(o) && o.content_type == opt_view(t),
                Err(e) => store_get(self@, key@) is None && e@ is NotFound,
            },
    {
        match self.index_of(key) {
            Some(i) => Ok(crate::models::duplicate_opt(&self.objects[i].content_type)),
            None => Err(Error::NotFound),
        }
    }

    /// Stores a list of objects in order.
    pub fn put_all(&mut self, puts: &Vec<Object>)
        requires
            store_wf(old(self)@),
        ensures
            final(self)@ == store_put_all(old(self)@, objects_view(puts@), puts.len() as int),
            store_wf(final(self)@),
    {
        let ghost ps = objects_view(puts@);
        let mut i: usize = 0;
        while i < puts.len()
            invariant
                i <= puts.len(),
                ps == objects_view(puts@),
                store_wf(self@),
                self@ == store_put_all(old(self)@, ps, i as int),
            decreases puts.len() - i,
        {
            assert(ps[i as int] == puts@[i as int]@);
            self.put(puts[i].duplicate());
            i += 1;
        }
    }

    /// The objects, in the order their keys were first used.
    pub fn objects(&self) -> (r: &Vec<Object>)
        ensures
            objects_view(r@) == self@,
    {
        &self.objects
    }
}

} // verus!
