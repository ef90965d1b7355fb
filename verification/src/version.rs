//! Semantic versions: which strings are versions, and which of a plugin's
//! versions is the latest.
//!
//! The `semver` crate parses version strings and puts versions in order;
//! the pick of the latest goes by its order.

use crate::models::{Version, VersionView};
use vstd::prelude::*;

verus! {

/// A parsed semantic version. `pre` and `build` hold the pre-release string
/// and the build metadata as ASCII bytes, without the leading `-` or `+`.
#[derive(Clone, Debug, PartialEq, Eq)]
pub struct SemVer {
    pub major: u64,
    pub minor: u64,
    pub patch: u64,
    pub pre: Vec<u8>,
    pub build: Vec<u8>,
}

/// A [`SemVer`] as contracts see it.
pub struct SemVerView {
    pub major: u64,
    pub minor: u64,
    pub patch: u64,
    pub pre: Seq<u8>,
    pub build: Seq<u8>,
}

impl View for SemVer {
    type V = SemVerView;

    open spec fn view(&self) -> SemVerView {
        SemVerView {
            major: self.major,
            minor: self.minor,
            patch: self.patch,
            pre: self.pre@,
            build: self.build@,
        }
    }
}

/// An optional parsed version as contracts see it.
pub open spec fn opt_semver_view(v: Option<SemVer>) -> Option<SemVerView> {
    match v {
        Some(v) => Some(v@),
        None => None,
    }
}

/// What `semver::Version::parse` makes of a string: the parts of the version,
/// or nothing where the string is no semantic version.
pub uninterp spec fn semver_of(text: Seq<char>) -> Option<SemVerView>;

/// Where the `semver` crate puts the version `a` against the version `b`:
/// -1 before it, 0 with it, 1 after it; nothing where one of the two strings
/// is no semantic version.
pub uninterp spec fn version_order_of(a: Seq<char>, b: Seq<char>) -> Option<i8>;

/// Calls `semver::Version::parse` and copies the parts of the version out.
/// Trusted: the result is what the parser makes of `text`, a function of
/// `text` alone.
#[verifier::external_body]
fn parse_semver(text: &str) -> (r: Option<SemVer>)
    ensures
        opt_semver_view(r) == semver_of(text@),
{
    let v = semver::Version::parse(text).ok()?;
    Some(
        SemVer {
            major: v.major,
            minor: v.minor,
            patch: v.patch,
            pre: v.pre.as_str().as_bytes().to_vec(),
            build: v.build.as_str().as_bytes().to_vec(),
        },
    )
}

/// Parses both strings with `semver::Version::parse` and compares the
/// versions with their `Ord::cmp`. Trusted: the result is the crate's order
/// of the two as -1, 0 or 1, a function of the two strings alone, and there
/// is one exactly where both strings parse.
#[verifier::external_body]
fn order_versions(a: &str, b: &str) -> (r: Option<i8>)
    ensures
        r == version_order_of(a@, b@),
        r.is_some() == (semver_of(a@) is Some && semver_of(b@) is Some),
        r matches Some(o) ==> -1 <= o <= 1,
{
    let x = semver::Version::parse(a).ok()?;
    let y = semver::Version::parse(b).ok()?;
    Some(
        match x.cmp(&y) {
            std::cmp::Ordering::Less => -1,
            std::cmp::Ordering::Equal => 0,
            std::cmp::Ordering::Greater => 1,
        },
    )
}

impl SemVer {
    /// Parses a version string. `None` where it is no semantic version.
    pub fn parse(text: &str) -> (r: Option<SemVer>)
        ensures
            opt_semver_view(r) == semver_of(text@),
    {
        parse_semver(text)
    }
}

/// The latest so far, once the entry `i` has been looked at: an entry that
/// is no version changes nothing; a version is the latest where there was
/// none, or where it does not come before the latest so far.
pub open spec fn later_of(best: Option<int>, i: int, parses: bool, order: Option<i8>) -> Option<
    int,
> {
    if !parses {
        best
    } else {
        match (best, order) {
            (None, _) => Some(i),
            (Some(b), Some(o)) => if o >= 0 {
                Some(i)
            } else {
                best
            },
            (Some(b), None) => best,
        }
    }
}

/// Among the first `n` version strings, the index of the one that comes
/// last in the order of versions; of several that are equal in it, the last.
/// Strings that are no versions are passed over.
pub open spec fn latest_among(nums: Seq<Seq<char>>, n: int) -> Option<int>
    decreases n,
{
    if n <= 0 || n > nums.len() {
        None
    } else {
        let before = latest_among(nums, n - 1);
        later_of(
            before,
            n - 1,
            semver_of(nums[n - 1]) is Some,
            match before {
                Some(b) => version_order_of(nums[n - 1], nums[b]),
                None => None,
            },
        )
    }
}

/// The index of the latest version of a list.
pub open spec fn latest_index(nums: Seq<Seq<char>>) -> Option<int> {
    latest_among(nums, nums.len() as int)
}

/// The version strings of a list of rows.
pub open spec fn nums_of(rows: Seq<VersionView>) -> Seq<Seq<char>> {
    rows.map_values(|v: VersionView| v.num)
}

/// An optional index as contracts see it.
pub open spec fn opt_index_view(i: Option<usize>) -> Option<int> {
    match i {
        Some(i) => Some(i as int),
        None => None,
    }
}

/// The latest so far, once the entry `i` has been looked at, given whether
/// it is a version and, where there is a latest so far, how the two are
/// ordered.
pub fn keep_later(best: Option<usize>, i: usize, parses: bool, order: Option<i8>) -> (r: Option<
    usize,
>)
    ensures
        opt_index_view(r) == later_of(opt_index_view(best), i as int, parses, order),
{
    if !parses {
        return best;
    }
    match (best, order) {
        (None, _) => Some(i),
        (Some(b), Some(o)) => {
            if o >= 0 {
                Some(i)
            } else {
                best
            }
        },
        (Some(b), None) => best,
    }
}

/// The latest of a list of version rows: the index of the row whose version
/// comes last in the order of versions among those that parse, or nothing
/// where none does.
pub fn latest_version(rows: &Vec<Version>) -> (r: Option<usize>)
    ensures
        opt_index_view(r) == latest_index(nums_of(crate::db::version_views(rows@))),
        r matches Some(i) ==> i < rows.len(),
{
    let ghost nums = nums_of(crate::db::version_views(rows@));
    let mut best: Option<usize> = None;
    let mut i: usize = 0;
    while i < rows.len()
        invariant
            i <= rows.len(),
            nums == nums_of(crate::db::version_views(rows@)),
            opt_index_view(best) == latest_among(nums, i as int),
            best matches Some(b) ==> b < i,
        decreases rows.len() - i,
    {
        assert(nums[i as int] == rows@[i as int].num@);
        let parses = SemVer::parse(rows[i].num.as_str()).is_some();
        let order = match best {
            Some(b) => {
                assert(nums[b as int] == rows@[b as int].num@);
                order_versions(rows[i].num.as_str(), rows[b].num.as_str())
            },
            None => None,
        };
        best = keep_later(best, i, parses, order);
        i += 1;
    }
    best
}

/// The latest of the first `n` strings is one of them and a version, and
/// there is one whenever one of them is a version.
pub proof fn lemma_latest_is_a_version(nums: Seq<Seq<char>>, n: int)
    requires
        0 <= n <= nums.len(),
    ensures
        match latest_among(nums, n) {
            Some(b) => 0 <= b < n && semver_of(nums[b]) is Some,
            None => forall|j: int| 0 <= j < n ==> semver_of(#[trigger] nums[j]) is None,
        },
    decreases n,
{
    if n > 0 {
        lemma_latest_is_a_version(nums, n - 1);
    }
}

} // verus!
