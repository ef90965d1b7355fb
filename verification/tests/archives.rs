use std::io::Write;
use tar::EntryType::{Directory, Regular, Symlink};
use volts::archive::{pack, unpack, FileEntry, FileTree, RawEntry};
use volts::error::Error;
use volts::paths::{directory_of, resolve_declared, resolve_entry};

fn raw_tar(entries: &[(&str, tar::EntryType, &[u8])]) -> Vec<u8> {
    let mut b = tar::Builder::new(Vec::new());
    for (path, kind, data) in entries {
        let mut h = tar::Header::new_gnu();
        h.set_entry_type(*kind);
        h.set_size(data.len() as u64);
        h.set_mode(0o644);
        let name = h.as_old_mut().name.as_mut();
        name[..path.len()].copy_from_slice(path.as_bytes());
        h.set_cksum();
        b.append(&h, *data).unwrap();
    }
    b.into_inner().unwrap()
}

fn gz(bytes: &[u8]) -> Vec<u8> {
    let mut e = flate2::write::GzEncoder::new(Vec::new(), flate2::Compression::fast());
    e.write_all(bytes).unwrap();
    e.finish().unwrap()
}

#[test]
fn pack_writes_gzip_and_unpack_reads_it_back() {
    let mut t = FileTree::new();
    t.put(b"volt.toml".to_vec(), b"name".to_vec());
    t.put(b"a/b/c.bin".to_vec(), vec![0, 1, 2, 255]);
    t.put(b"empty".to_vec(), vec![]);
    let bytes = pack(&t).unwrap();
    assert_eq!(&bytes[..3], &[0x1f, 0x8b, 8]);
    let back = unpack(&bytes).unwrap();
    assert_eq!(back.files(), t.files());
    assert_eq!(
        back.files()[1],
        FileEntry { path: b"a/b/c.bin".to_vec(), data: vec![0, 1, 2, 255] }
    );
    let mut d = flate2::read::GzDecoder::new(&bytes[..]);
    let mut ar = tar::Archive::new(&mut d);
    let names: Vec<String> = ar
        .entries()
        .unwrap()
        .map(|e| e.unwrap().path().unwrap().to_str().unwrap().to_string())
        .collect();
    assert_eq!(names, vec!["volt.toml", "a/b/c.bin", "empty"]);
}

#[test]
fn unpack_takes_regular_files_under_their_canonical_paths() {
    let body = gz(&raw_tar(&[
        ("./", Directory, b""),
        ("./volt.toml", Regular, b"one"),
        ("dir/", Directory, b""),
        ("dir//file", Regular, b"two"),
        ("/abs/file", Regular, b"three"),
        ("../escape", Regular, b"no"),
        ("dir/../up", Regular, b"no"),
        ("link", Symlink, b""),
        ("volt.toml", Regular, b"later"),
    ]));
    let t = unpack(&body).unwrap();
    let got: Vec<(&[u8], &[u8])> =
        t.files().iter().map(|f| (f.path.as_slice(), f.data.as_slice())).collect();
    let want: Vec<(&[u8], &[u8])> =
        vec![(b"volt.toml", b"later"), (b"dir/file", b"two"), (b"abs/file", b"three")];
    assert_eq!(got, want);
    assert_eq!(t.get(b"volt.toml"), Some(&b"later".to_vec()));
    assert_eq!(t.get(b"./volt.toml"), None);
}

#[test]
fn unpack_refuses_what_is_no_archive() {
    assert_eq!(unpack(b"").err(), Some(Error::BadArchive));
    assert_eq!(unpack(b"plain text").err(), Some(Error::BadArchive));
    assert_eq!(unpack(&gz(b"not a tar archive at all")).err(), Some(Error::BadArchive));
    assert!(unpack(&gz(&raw_tar(&[]))).unwrap().files().is_empty());
}

#[test]
fn from_entries_passes_over_directories_and_climbing_paths() {
    let e = |path: &str, is_file: bool, data: &[u8]| RawEntry {
        path: path.as_bytes().to_vec(),
        is_file,
        data: data.to_vec(),
    };
    let t = FileTree::from_entries(&vec![
        e("a", true, b"1"),
        e("b/", false, b""),
        e("b/../c", true, b"2"),
        e("./a", true, b"3"),
        e("", true, b"4"),
        e(".", true, b"5"),
    ]);
    assert_eq!(t.files(), &vec![FileEntry { path: b"a".to_vec(), data: b"3".to_vec() }]);
}

#[test]
fn entry_paths() {
    for (raw, want) in [
        ("a", Some("a")),
        ("./a/./b", Some("a/b")),
        ("///a//b/", Some("a/b")),
        ("a/../b", None),
        ("..", None),
        ("", None),
        ("./", None),
        ("a..b/...", Some("a..b/...")),
    ] {
        assert_eq!(resolve_entry(raw.as_bytes()), want.map(|w| w.as_bytes().to_vec()), "{raw}");
    }
}

#[test]
fn declared_paths() {
    let root: Vec<Vec<u8>> = vec![];
    let themes: Vec<Vec<u8>> = vec![b"themes".to_vec(), b"dark".to_vec()];
    for (dir, rel, want) in [
        (&root, "a.wasm", Some("a.wasm")),
        (&root, "./bin/../a.wasm", Some("a.wasm")),
        (&root, "../a.wasm", None),
        (&root, "/etc/passwd", None),
        (&root, "", None),
        (&root, "a/..", None),
        (&themes, "icons/x.svg", Some("themes/dark/icons/x.svg")),
        (&themes, "../x.svg", Some("themes/x.svg")),
        (&themes, "../../x.svg", Some("x.svg")),
        (&themes, "../../../x.svg", None),
        (&themes, "/x.svg", None),
    ] {
        assert_eq!(
            resolve_declared(dir, rel.as_bytes()),
            want.map(|w| w.as_bytes().to_vec()),
            "{rel}"
        );
    }
    assert_eq!(directory_of(b"themes/dark/t.toml"), Some(themes.clone()));
    assert_eq!(directory_of(b"t.toml"), Some(root.clone()));
    assert_eq!(directory_of(b"/t.toml"), None);
    assert_eq!(directory_of(b"a/../.."), None);
}
