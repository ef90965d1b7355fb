//! Packages as file trees: reading one out of an uploaded archive and
//! writing one back. The container is a gzip-compressed tar; `flate2` and
//! `tar` decode and encode it.

use crate::error::Error;
use crate::paths::{entry_target, opt_bytes_view, resolve_entry};
use crate::seqs::{first_match, lemma_first_match_absent, lemma_first_match_found};
use crate::text::{copy_bytes, same_bytes};
use std::io::Read;
use std::io::Write;
use vstd::prelude::*;

verus! {

/// One entry of a tar archive as it was read: the path as written, whether
/// the entry is a regular file, and its contents.
#[derive(Clone, Debug, PartialEq, Eq)]
pub struct RawEntry {
    pub path: Vec<u8>,
    pub is_file: bool,
    pub data: Vec<u8>,
}

/// A [`RawEntry`] as contracts see it.
pub struct RawEntryView {
    pub path: Seq<u8>,
    pub is_file: bool,
    pub data: Seq<u8>,
}

impl View for RawEntry {
    type V = RawEntryView;

    open spec fn view(&self) -> RawEntryView {
        RawEntryView { path: self.path@, is_file: self.is_file, data: self.data@ }
    }
}

/// One file of a package, under its canonical path.
#[derive(Clone, Debug, PartialEq, Eq)]
pub struct FileEntry {
    pub path: Vec<u8>,
    pub data: Vec<u8>,
}

/// A [`FileEntry`] as contracts see it.
pub struct FileEntryView {
    pub path: Seq<u8>,
    pub data: Seq<u8>,
}

impl View for FileEntry {
    type V = FileEntryView;

    open spec fn view(&self) -> FileEntryView {
        FileEntryView { path: self.path@, data: self.data@ }
    }
}

/// The files of a list, as contracts see them.
pub open spec fn files_view(f: Seq<FileEntry>) -> Seq<FileEntryView> {
    f.map_values(|e: FileEntry| e@)
}

/// The raw entries of a list, as contracts see them.
pub open spec fn raw_view(f: Seq<RawEntry>) -> Seq<RawEntryView> {
    f.map_values(|e: RawEntry| e@)
}

/// What `flate2` decodes a gzip stream to, or nothing where it is none.
pub uninterp spec fn gunzip_of(bytes: Seq<u8>) -> Option<Seq<u8>>;

/// The gzip stream `flate2` encodes a byte string to at its default level.
pub uninterp spec fn gzip_of(bytes: Seq<u8>) -> Option<Seq<u8>>;

/// The entries `tar` reads out of an archive, or nothing where it cannot be
/// read to its end.
pub uninterp spec fn tar_entries_of(bytes: Seq<u8>) -> Option<Seq<RawEntryView>>;

/// The archive `tar` writes for a list of files, each with the given mode.
pub uninterp spec fn tar_image_of(files: Seq<FileEntryView>, mode: u32) -> Option<Seq<u8>>;

/// Reads `bytes` to the end through `flate2::read::GzDecoder`. Trusted: the
/// result is what the decoder yields for these bytes, or `None` where it
/// reports an error.
#[verifier::external_body]
fn gunzip(bytes: &[u8]) -> (r: Option<Vec<u8>>)
    ensures
        opt_bytes_view(r) == gunzip_of(bytes@),
{
    let mut out = Vec::new();
    flate2::read::GzDecoder::new(bytes).read_to_end(&mut out).ok()?;
    Some(out)
}

/// Writes `bytes` through `flate2::write::GzEncoder` at
/// `Compression::default()`. Trusted: the result is the stream the encoder
/// produces for these bytes, or `None` where it reports an error.
#[verifier::external_body]
fn gzip(bytes: &[u8]) -> (r: Option<Vec<u8>>)
    ensures
        opt_bytes_view(r) == gzip_of(bytes@),
{
    let mut enc = flate2::write::GzEncoder::new(Vec::new(), flate2::Compression::default());
    enc.write_all(bytes).ok()?;
    enc.finish().ok()
}

/// An optional list of raw entries as contracts see it.
pub open spec fn opt_raw_view(v: Option<Vec<RawEntry>>) -> Option<Seq<RawEntryView>> {
    match v {
        Some(v) => Some(raw_view(v@)),
        None => None,
    }
}

/// Walks `tar::Archive::entries` over `bytes` and copies out of each entry
/// its `path_bytes`, whether its type `is_file`, and its contents. Trusted:
/// the result lists the archive's entries in order, or is `None` where the
/// reader reports an error.
#[verifier::external_body]
fn tar_list(bytes: &[u8]) -> (r: Option<Vec<RawEntry>>)
    ensures
        opt_raw_view(r) == tar_entries_of(bytes@),
{
    let mut ar = tar::Archive::new(bytes);
    let mut out = Vec::new();
    for e in ar.entries().ok()? {
        let mut e = e.ok()?;
        let (path, is_file) = (e.path_bytes().to_vec(), e.header().entry_type().is_file());
        let mut data = Vec::new();
        e.read_to_end(&mut data).ok()?;
        out.push(RawEntry { path, is_file, data });
    }
    Some(out)
}

/// Appends each file to a `tar::Builder` over a byte vector with
/// `append_data`, under a fresh GNU header that carries the file's size and
/// `mode`, and takes the bytes out with `into_inner`. Trusted: the result is
/// the archive the builder writes for these files, or `None` where it
/// reports an error or a path is not UTF-8.
#[verifier::external_body]
fn tar_pack(files: &Vec<FileEntry>, mode: u32) -> (r: Option<Vec<u8>>)
    ensures
        opt_bytes_view(r) == tar_image_of(files_view(files@), mode),
{
    let mut b = tar::Builder::new(Vec::new());
    for e in files.iter() {
        let mut h = tar::Header::new_gnu();
        h.set_size(e.data.len() as u64);
        h.set_mode(mode);
        b.append_data(&mut h, std::str::from_utf8(&e.path).ok()?, e.data.as_slice()).ok()?;
    }
    b.into_inner().ok()
}

/// The file with a given path.
pub open spec fn file_at(path: Seq<u8>) -> spec_fn(FileEntryView) -> bool {
    |e: FileEntryView| e.path == path
}

/// The contents of the file at `path`, if the tree has one.
pub open spec fn tree_get(files: Seq<FileEntryView>, path: Seq<u8>) -> Option<Seq<u8>> {
    match first_match(files, file_at(path)) {
        Some(i) => Some(files[i].data),
        None => None,
    }
}

/// The tree with `data` at `path`: in place of the file that was there, or
/// behind the others.
pub open spec fn tree_put(files: Seq<FileEntryView>, path: Seq<u8>, data: Seq<u8>) -> Seq<
    FileEntryView,
> {
    match first_match(files, file_at(path)) {
        Some(i) => files.update(i, FileEntryView { path, data }),
        None => files.push(FileEntryView { path, data }),
    }
}

/// No two files share a path.
pub open spec fn tree_wf(files: Seq<FileEntryView>) -> bool {
    forall|i: int, j: int|
        0 <= i < j < files.len() ==> (#[trigger] files[i]).path != (#[trigger] files[j]).path
}

/// The tree that the first `n` entries of an archive unpack to: regular
/// files only, each under the path its entry names, a later entry replacing
/// an earlier one of the same path.
pub open spec fn tree_from(entries: Seq<RawEntryView>, n: int) -> Seq<FileEntryView>
    decreases n,
{
    if n <= 0 || n > entries.len() {
        Seq::empty()
    } else {
        let t = tree_from(entries, n - 1);
        let e = entries[n - 1];
        match entry_target(e.path) {
            Some(p) => if e.is_file {
                tree_put(t, p, e.data)
            } else {
                t
            },
            None => t,
        }
    }
}

/// The tree an upload unpacks to, or nothing where it is no gzip-compressed
/// tar archive.
pub open spec fn tree_of_upload(upload: Seq<u8>) -> Option<Seq<FileEntryView>> {
    match gunzip_of(upload) {
        Some(tar) => match tar_entries_of(tar) {
            Some(entries) => Some(tree_from(entries, entries.len() as int)),
            None => None,
        },
        None => None,
    }
}

/// The archive that is written for a tree, or nothing where none can be.
pub open spec fn written_of(files: Seq<FileEntryView>) -> Option<Seq<u8>> {
    match tar_image_of(files, FILE_MODE) {
        Some(tar) => gzip_of(tar),
        None => None,
    }
}

/// The archive a tree packs to: the one that is written for it, where that
/// one unpacks to the tree again; otherwise nothing.
pub open spec fn upload_of_tree(files: Seq<FileEntryView>) -> Option<Seq<u8>> {
    match written_of(files) {
        Some(bytes) => if tree_of_upload(bytes) == Some(files) {
            Some(bytes)
        } else {
            None
        },
        None => None,
    }
}

/// The mode packed files are given: readable by all, writable by the owner.
pub const FILE_MODE: u32 = 0o644;

/// Putting a file keeps paths distinct.
pub proof fn lemma_tree_put_wf(files: Seq<FileEntryView>, path: Seq<u8>, data: Seq<u8>)
    requires
        tree_wf(files),
    ensures
        tree_wf(tree_put(files, path, data)),
        tree_get(tree_put(files, path, data), path) == Some(data),
        forall|other: Seq<u8>|
            other != path ==> #[trigger] tree_get(tree_put(files, path, data), other) == tree_get(
                files,
                other,
            ),
{
    crate::seqs::lemma_first_match_means(files, file_at(path), 0);
    let out = tree_put(files, path, data);
    let k = match first_match(files, file_at(path)) {
        Some(i) => i,
        None => files.len() as int,
    };
    assert(out[k] == FileEntryView { path, data });
    assert(first_match(out, file_at(path)) == Some(k)) by {
        assert forall|j: int| 0 <= j < k implies !file_at(path)(#[trigger] out[j]) by {
            assert(out[j] == files[j]);
        }
        lemma_first_match_found(out, file_at(path), 0, k);
    }
    assert forall|other: Seq<u8>| other != path implies #[trigger] tree_get(out, other) == tree_get(
        files,
        other,
    ) by {
        crate::seqs::lemma_first_match_means(files, file_at(other), 0);
        match first_match(files, file_at(other)) {
            Some(i) => {
                assert(out[i] == files[i]);
                assert forall|j: int| 0 <= j < i implies !file_at(other)(#[trigger] out[j]) by {
                    if j != k {
                        assert(out[j] == files[j]);
                    }
                }
                lemma_first_match_found(out, file_at(other), 0, i);
            },
            None => {
                assert forall|j: int| 0 <= j < out.len() implies !file_at(other)(
                    #[trigger] out[j],
                ) by {
                    if j != k {
                        assert(out[j] == files[j]);
                    }
                }
                lemma_first_match_absent(out, file_at(other), 0);
            },
        }
    }
}

/// A package: files under canonical paths, no two under the same.
pub struct FileTree {
    files: Vec<FileEntry>,
}

impl View for FileTree {
    type V = Seq<FileEntryView>;

    closed spec fn view(&self) -> Seq<FileEntryView> {
        files_view(self.files@)
    }
}

impl FileTree {
    /// An empty package.
    pub fn new() -> (r: FileTree)
        ensures
            r@ == Seq::<FileEntryView>::empty(),
            tree_wf(r@),
    {
        let files: Vec<FileEntry> = Vec::new();
        assert(files_view(files@) =~= Seq::<FileEntryView>::empty());
        FileTree { files }
    }

    fn index_of(&self, path: &[u8]) -> (r: Option<usize>)
        ensures
            crate::db::index_agrees(r, first_match(self@, file_at(path@))),
            r matches Some(i) ==> i < self.files.len(),
    {
        let mut i: usize = 0;
        while i < self.files.len()
            invariant
                i <= self.files.len(),
                forall|j: int| 0 <= j < i ==> self.files@[j].path@ != path@,
            decreases self.files.len() - i,
        {
            if same_bytes(self.files[i].path.as_slice(), path) {
                proof {
                    lemma_first_match_found(self@, file_at(path@), 0, i as int);
                }
                return Some(i);
            }
            i += 1;
        }
        proof {
            lemma_first_match_absent(self@, file_at(path@), 0);
        }
        None
    }

    /// The contents of the file at `path`.
    pub fn get(&self, path: &[u8]) -> (r: Option<&Vec<u8>>)
        ensures
            match r {
                Some(d) => tree_get(self@, path@) == Some(d@),
                None => tree_get(self@, path@) is None,
            },
    {
        match self.index_of(path) {
            Some(i) => Some(&self.files[i].data),
            None => None,
        }
    }

    /// Puts `data` at `path`, in place of what was there.
    pub fn put(&mut self, path: Vec<u8>, data: Vec<u8>)
        requires
            tree_wf(old(self)@),
        ensures
            final(self)@ == tree_put(old(self)@, path@, data@),
            tree_wf(final(self)@),
    {
        proof {
            lemma_tree_put_wf(self@, path@, data@);
        }
        let ghost p = path@;
        let ghost d = data@;
        match self.index_of(path.as_slice()) {
            Some(i) => {
                assert(files_view(self.files@.update(i as int, FileEntry { path, data })) =~= tree_put(
                    old(self)@,
                    p,
                    d,
                ));
                self.files.set(i, FileEntry { path, data });
            },
            None => {
                assert(files_view(self.files@.push(FileEntry { path, data })) =~= tree_put(
                    old(self)@,
                    p,
                    d,
                ));
                self.files.push(FileEntry { path, data });
            },
        }
    }

    /// Whether two packages hold the same files in the same order.
    pub fn same_files(&self, other: &FileTree) -> (r: bool)
        ensures
            r == (self@ == other@),
    {
        if self.files.len() != other.files.len() {
            assert(self@.len() != other@.len());
            return false;
        }
        let mut i: usize = 0;
        while i < self.files.len()
            invariant
                i <= self.files.len(),
                self.files.len() == other.files.len(),
                forall|j: int| 0 <= j < i ==> self@[j] == other@[j],
            decreases self.files.len() - i,
        {
            let a = &self.files[i];
            let b = &other.files[i];
            if !(same_bytes(a.path.as_slice(), b.path.as_slice()) && same_bytes(
                a.data.as_slice(),
                b.data.as_slice(),
            )) {
                assert(self@[i as int] != other@[i as int]);
                return false;
            }
            i += 1;
        }
        assert(self@ =~= other@);
        true
    }

    /// The files, in the order they were first put.
    pub fn files(&self) -> (r: &Vec<FileEntry>)
        ensures
            files_view(r@) == self@,
    {
        &self.files
    }

    /// The tree a list of archive entries unpacks to.
    pub fn from_entries(entries: &Vec<RawEntry>) -> (r: FileTree)
        ensures
            r@ == tree_from(raw_view(entries@), entries.len() as int),
            tree_wf(r@),
    {
        let ghost es = raw_view(entries@);
        let mut tree = FileTree::new();
        let mut i: usize = 0;
        while i < entries.len()
            invariant
                i <= entries.len(),
                es == raw_view(entries@),
                tree_wf(tree@),
                tree@ == tree_from(es, i as int),
            decreases entries.len() - i,
        {
            let e = &entries[i];
            assert(es[i as int] == e@);
            match resolve_entry(e.path.as_slice()) {
                Some(p) => {
                    if e.is_file {
                        tree.put(p, copy_bytes(e.data.as_slice()));
                    }
                },
                None => {},
            }
            i += 1;
        }
        tree
    }
}

/// An optional tree as contracts see it.
pub open spec fn tree_result_view(r: Result<FileTree, Error>) -> Option<Seq<FileEntryView>> {
    match r {
        Ok(t) => Some(t@),
        Err(_) => None,
    }
}

/// Unpacks an upload into the tree of its regular files. Fails with
/// `BadArchive` where the upload is no gzip-compressed tar archive.
pub fn unpack(upload: &[u8]) -> (r: Result<FileTree, Error>)
    ensures
        tree_result_view(r) == tree_of_upload(upload@),
        r matches Err(e) ==> e@ is BadArchive,
        r matches Ok(t) ==> tree_wf(t@),
{
    match gunzip(upload) {
        Some(tar) => match tar_list(tar.as_slice()) {
            Some(entries) => Ok(FileTree::from_entries(&entries)),
            None => Err(Error::BadArchive),
        },
        None => Err(Error::BadArchive),
    }
}

/// Packs a tree into a gzip-compressed tar archive, its files in order, and
/// hands the archive out only where it unpacks to the tree again. Fails with
/// `Internal` where the archive cannot be written or does not unpack to the
/// tree.
pub fn pack(tree: &FileTree) -> (r: Result<Vec<u8>, Error>)
    ensures
        match r {
            Ok(bytes) => upload_of_tree(tree@) == Some(bytes@) && tree_of_upload(bytes@) == Some(
                tree@,
            ),
            Err(e) => upload_of_tree(tree@) is None && e@ is Internal,
        },
{
    let bytes = match tar_pack(tree.files(), FILE_MODE) {
        Some(tar) => match gzip(tar.as_slice()) {
            Some(gz) => gz,
            None => {
                return Err(Error::Internal);
            },
        },
        None => {
            return Err(Error::Internal);
        },
    };
    match unpack(bytes.as_slice()) {
        Ok(back) => {
            if back.same_files(tree) {
                Ok(bytes)
            } else {
                Err(Error::Internal)
            }
        },
        Err(_) => Err(Error::Internal),
    }
}

} // verus!
