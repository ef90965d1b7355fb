//! Paths inside a package: how a path written in an archive or in a manifest
//! names a file below the package root.
//!
//! A canonical path is a list of components joined by `/`: no empty
//! component, no `.`, no `..`, no leading or trailing `/`.

use crate::text::{fields_of, fields_view, split_bytes};
use vstd::prelude::*;

verus! {

/// The byte that separates the components of a path.
pub const SLASH: u8 = 47;

/// The byte that `.` and `..` are made of.
pub const DOT: u8 = 46;

/// Whether a component is `.`.
pub open spec fn is_cur_dir(f: Seq<u8>) -> bool {
    f.len() == 1 && f[0] == DOT
}

/// Whether a component is `..`.
pub open spec fn is_parent_dir(f: Seq<u8>) -> bool {
    f.len() == 2 && f[0] == DOT && f[1] == DOT
}

/// Walks one component further from the directory `at`. An empty component
/// and `.` stay; `..` goes one up where `climb` allows it and there is
/// somewhere to go, and otherwise leads nowhere; any other component goes
/// down.
pub open spec fn step(at: Seq<Seq<u8>>, f: Seq<u8>, climb: bool) -> Option<Seq<Seq<u8>>> {
    if f.len() == 0 || is_cur_dir(f) {
        Some(at)
    } else if is_parent_dir(f) {
        if climb && at.len() > 0 {
            Some(at.drop_last())
        } else {
            None
        }
    } else {
        Some(at.push(f))
    }
}

/// Where the first `n` of `fields` lead from the directory `base`.
pub open spec fn walked(base: Seq<Seq<u8>>, fields: Seq<Seq<u8>>, n: int, climb: bool) -> Option<
    Seq<Seq<u8>>,
>
    decreases n,
{
    if n <= 0 || n > fields.len() {
        Some(base)
    } else {
        match walked(base, fields, n - 1, climb) {
            None => None,
            Some(at) => step(at, fields[n - 1], climb),
        }
    }
}

/// The components joined by `/`.
pub open spec fn joined(parts: Seq<Seq<u8>>) -> Seq<u8>
    decreases parts.len(),
{
    if parts.len() == 0 {
        Seq::empty()
    } else if parts.len() == 1 {
        parts[0]
    } else {
        joined(parts.drop_last()) + seq![SLASH] + parts.last()
    }
}

/// The file that a path written in an archive names: leading `/`, empty
/// components and `.` are passed over; a path with `..` in it, or with no
/// component left, names none.
pub open spec fn entry_target(raw: Seq<u8>) -> Option<Seq<u8>> {
    let f = fields_of(raw, SLASH);
    match walked(Seq::empty(), f, f.len() as int, false) {
        Some(parts) => if parts.len() == 0 {
            None
        } else {
            Some(joined(parts))
        },
        None => None,
    }
}

/// The file that a path written in a manifest or a theme names, read from
/// the directory `dir` (given by its components): `..` goes up, but a path
/// that starts at `/`, climbs above the package root or has no component
/// left names none.
pub open spec fn declared_target(dir: Seq<Seq<u8>>, rel: Seq<u8>) -> Option<Seq<u8>> {
    if rel.len() > 0 && rel[0] == SLASH {
        None
    } else {
        let f = fields_of(rel, SLASH);
        match walked(dir, f, f.len() as int, true) {
            Some(parts) => if parts.len() == 0 {
                None
            } else {
                Some(joined(parts))
            },
            None => None,
        }
    }
}

/// The directory that holds the file `rel` names when read from the package
/// root, by its components; nothing where `rel` names no file.
pub open spec fn declared_dir(rel: Seq<u8>) -> Option<Seq<Seq<u8>>> {
    if rel.len() > 0 && rel[0] == SLASH {
        None
    } else {
        let f = fields_of(rel, SLASH);
        match walked(Seq::empty(), f, f.len() as int, true) {
            Some(parts) => if parts.len() == 0 {
                None
            } else {
                Some(parts.drop_last())
            },
            None => None,
        }
    }
}

/// An optional byte string as contracts see it.
pub open spec fn opt_bytes_view(v: Option<Vec<u8>>) -> Option<Seq<u8>> {
    match v {
        Some(v) => Some(v@),
        None => None,
    }
}

/// An optional list of components as contracts see it.
pub open spec fn opt_parts_view(v: Option<Vec<Vec<u8>>>) -> Option<Seq<Seq<u8>>> {
    match v {
        Some(v) => Some(fields_view(v@)),
        None => None,
    }
}

fn is_dots(f: &Vec<u8>, n: usize) -> (r: bool)
    requires
        n == 1 || n == 2,
    ensures
        r == (if n == 1 {
            is_cur_dir(f@)
        } else {
            is_parent_dir(f@)
        }),
{
    if f.len() != n {
        return false;
    }
    if n == 1 {
        f[0] == DOT
    } else {
        f[0] == DOT && f[1] == DOT
    }
}

fn walk(base: Vec<Vec<u8>>, fields: &Vec<Vec<u8>>, climb: bool) -> (r: Option<Vec<Vec<u8>>>)
    ensures
        opt_parts_view(r) == walked(
            fields_view(base@),
            fields_view(fields@),
            fields.len() as int,
            climb,
        ),
{
    let ghost b = fields_view(base@);
    let ghost fs = fields_view(fields@);
    let mut at = base;
    let mut i: usize = 0;
    while i < fields.len()
        invariant
            i <= fields.len(),
            fs == fields_view(fields@),
            b == fields_view(base@),
            walked(b, fs, i as int, climb) == Some(fields_view(at@)),
        decreases fields.len() - i,
    {
        let f = &fields[i];
        let ghost before = fields_view(at@);
        assert(fs[i as int] == f@);
        if f.len() == 0 || is_dots(f, 1) {
        } else if is_dots(f, 2) {
            if climb && at.len() > 0 {
                at.pop();
                assert(fields_view(at@) =~= before.drop_last());
            } else {
                proof {
                    assert(step(before, fs[i as int], climb) is None);
                    assert(walked(b, fs, i as int + 1, climb) is None);
                    lemma_walk_stuck(b, fs, i as int + 1, fields.len() as int, climb);
                }
                return None;
            }
        } else {
            at.push(crate::text::copy_bytes(f.as_slice()));
            assert(fields_view(at@) =~= before.push(f@));
        }
        i += 1;
    }
    Some(at)
}

/// A walk that has led nowhere leads nowhere however it goes on.
pub proof fn lemma_walk_stuck(
    base: Seq<Seq<u8>>,
    fields: Seq<Seq<u8>>,
    n: int,
    m: int,
    climb: bool,
)
    requires
        0 <= n <= m <= fields.len(),
        walked(base, fields, n, climb) is None,
    ensures
        walked(base, fields, m, climb) is None,
    decreases m - n,
{
    if n < m {
        lemma_walk_stuck(base, fields, n, m - 1, climb);
    }
}

fn join(parts: &Vec<Vec<u8>>) -> (r: Vec<u8>)
    ensures
        r@ == joined(fields_view(parts@)),
{
    let ghost ps = fields_view(parts@);
    let mut out: Vec<u8> = Vec::new();
    let mut i: usize = 0;
    assert(ps.subrange(0, 0) =~= Seq::<Seq<u8>>::empty());
    while i < parts.len()
        invariant
            i <= parts.len(),
            ps == fields_view(parts@),
            out@ == joined(ps.subrange(0, i as int)),
        decreases parts.len() - i,
    {
        let ghost before = out@;
        if i > 0 {
            out.push(SLASH);
        }
        let p = &parts[i];
        let mut k: usize = 0;
        let ghost mid = out@;
        while k < p.len()
            invariant
                k <= p.len(),
                out@ == mid + p@.subrange(0, k as int),
            decreases p.len() - k,
        {
            out.push(p[k]);
            assert(out@ =~= mid + p@.subrange(0, k + 1));
            k += 1;
        }
        proof {
            assert(p@.subrange(0, k as int) =~= p@);
            let t = ps.subrange(0, i + 1);
            assert(t.drop_last() =~= ps.subrange(0, i as int));
            assert(t.last() == p@);
            if i == 0 {
                assert(out@ =~= p@);
            } else {
                assert(out@ =~= before + seq![SLASH] + p@);
            }
        }
        i += 1;
    }
    assert(ps.subrange(0, i as int) =~= ps);
    out
}

/// The canonical path of the file that a path written in an archive names.
pub fn resolve_entry(raw: &[u8]) -> (r: Option<Vec<u8>>)
    ensures
        opt_bytes_view(r) == entry_target(raw@),
{
    let fields = split_bytes(raw, SLASH);
    let root: Vec<Vec<u8>> = Vec::new();
    assert(fields_view(root@) =~= Seq::<Seq<u8>>::empty());
    match walk(root, &fields, false) {
        Some(parts) => {
            if parts.len() == 0 {
                None
            } else {
                Some(join(&parts))
            }
        },
        None => None,
    }
}

/// A copy of a list of components.
fn copy_parts(parts: &Vec<Vec<u8>>) -> (r: Vec<Vec<u8>>)
    ensures
        fields_view(r@) == fields_view(parts@),
{
    let mut out: Vec<Vec<u8>> = Vec::new();
    let mut i: usize = 0;
    while i < parts.len()
        invariant
            i <= parts.len(),
            fields_view(out@) == fields_view(parts@).subrange(0, i as int),
        decreases parts.len() - i,
    {
        let ghost before = fields_view(out@);
        out.push(crate::text::copy_bytes(parts[i].as_slice()));
        assert(fields_view(out@) =~= before.push(parts@[i as int]@));
        assert(fields_view(out@) =~= fields_view(parts@).subrange(0, i + 1));
        i += 1;
    }
    assert(fields_view(parts@).subrange(0, i as int) =~= fields_view(parts@));
    out
}

/// The canonical path of the file that a declared path names, read from the
/// directory `dir`.
pub fn resolve_declared(dir: &Vec<Vec<u8>>, rel: &[u8]) -> (r: Option<Vec<u8>>)
    ensures
        opt_bytes_view(r) == declared_target(fields_view(dir@), rel@),
{
    if rel.len() > 0 && rel[0] == SLASH {
        return None;
    }
    let fields = split_bytes(rel, SLASH);
    match walk(copy_parts(dir), &fields, true) {
        Some(parts) => {
            if parts.len() == 0 {
                None
            } else {
                Some(join(&parts))
            }
        },
        None => None,
    }
}

/// The directory of the file that a declared path names, read from the
/// package root.
pub fn directory_of(rel: &[u8]) -> (r: Option<Vec<Vec<u8>>>)
    ensures
        opt_parts_view(r) == declared_dir(rel@),
{
    if rel.len() > 0 && rel[0] == SLASH {
        return None;
    }
    let fields = split_bytes(rel, SLASH);
    let root: Vec<Vec<u8>> = Vec::new();
    assert(fields_view(root@) =~= Seq::<Seq<u8>>::empty());
    match walk(root, &fields, true) {
        Some(parts) => {
            if parts.len() == 0 {
                None
            } else {
                let mut parts = parts;
                let ghost before = fields_view(parts@);
                parts.pop();
                assert(fields_view(parts@) =~= before.drop_last());
                Some(parts)
            }
        },
        None => None,
    }
}

} // verus!
