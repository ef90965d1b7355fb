//! Searching and ranking sequences: the vocabulary the table contracts use.

use vstd::prelude::*;

verus! {

/// The least index at or after `from` whose element satisfies `p`.
pub open spec fn first_match_from<T>(s: Seq<T>, p: spec_fn(T) -> bool, from: int) -> Option<int>
    decreases s.len() - from,
{
    if from < 0 || from >= s.len() {
        None
    } else if p(s[from]) {
        Some(from)
    } else {
        first_match_from(s, p, from + 1)
    }
}

/// The least index whose element satisfies `p`.
pub open spec fn first_match<T>(s: Seq<T>, p: spec_fn(T) -> bool) -> Option<int> {
    first_match_from(s, p, 0)
}

/// The greatest index whose element satisfies `p`.
pub open spec fn last_match<T>(s: Seq<T>, p: spec_fn(T) -> bool) -> Option<int>
    decreases s.len(),
{
    if s.len() == 0 {
        None
    } else if p(s.last()) {
        Some(s.len() - 1)
    } else {
        last_match(s.drop_last(), p)
    }
}

/// An index found by a scan that met no earlier match is the first match.
pub proof fn lemma_first_match_found<T>(s: Seq<T>, p: spec_fn(T) -> bool, from: int, i: int)
    requires
        0 <= from <= i < s.len(),
        p(s[i]),
        forall|j: int| from <= j < i ==> !p(#[trigger] s[j]),
    ensures
        first_match_from(s, p, from) == Some(i),
    decreases i - from,
{
    if from < i {
        lemma_first_match_found(s, p, from + 1, i);
    }
}

/// A scan that met no match at all finds nothing.
pub proof fn lemma_first_match_absent<T>(s: Seq<T>, p: spec_fn(T) -> bool, from: int)
    requires
        0 <= from <= s.len(),
        forall|j: int| from <= j < s.len() ==> !p(#[trigger] s[j]),
    ensures
        first_match_from(s, p, from) is None,
    decreases s.len() - from,
{
    if from < s.len() {
        lemma_first_match_absent(s, p, from + 1);
    }
}

/// Where an element satisfies `p`, there is a first match.
pub proof fn lemma_first_match_exists<T>(s: Seq<T>, p: spec_fn(T) -> bool, i: int)
    requires
        0 <= i < s.len(),
        p(s[i]),
    ensures
        first_match(s, p) is Some,
{
    lemma_first_match_means(s, p, 0);
}

/// What a first match is: it satisfies `p`, and nothing before it does; where
/// there is none, nothing satisfies `p`.
pub proof fn lemma_first_match_means<T>(s: Seq<T>, p: spec_fn(T) -> bool, from: int)
    requires
        0 <= from <= s.len(),
    ensures
        match first_match_from(s, p, from) {
            Some(i) => from <= i < s.len() && p(s[i]) && forall|j: int|
                from <= j < i ==> !p(#[trigger] s[j]),
            None => forall|j: int| from <= j < s.len() ==> !p(#[trigger] s[j]),
        },
    decreases s.len() - from,
{
    if from < s.len() && !p(s[from]) {
        lemma_first_match_means(s, p, from + 1);
    }
}

/// Extending a scanned prefix by one element extends what was kept of it by
/// that element, or leaves it as it was.
pub proof fn lemma_filter_step<T>(s: Seq<T>, p: spec_fn(T) -> bool, i: int)
    requires
        0 <= i < s.len(),
    ensures
        s.subrange(0, i + 1).filter(p) == if p(s[i]) {
            s.subrange(0, i).filter(p).push(s[i])
        } else {
            s.subrange(0, i).filter(p)
        },
{
    reveal(Seq::filter);
    assert(s.subrange(0, i + 1).drop_last() =~= s.subrange(0, i));
}

/// Nothing is kept of an empty prefix.
pub proof fn lemma_filter_start<T>(s: Seq<T>, p: spec_fn(T) -> bool)
    ensures
        s.subrange(0, 0).filter(p) == Seq::<T>::empty(),
{
    reveal(Seq::filter);
}

/// Whether `out` holds the elements of `rows` ranked by `key`: greater keys
/// first, ties in the order of `rows`.
pub open spec fn is_ranked_by<T>(rows: Seq<T>, key: spec_fn(T) -> int, out: Seq<T>) -> bool {
    exists|order: Seq<int>| #[trigger]
        is_ranking(rows.map_values(key), order) && out == order.map_values(|k: int| rows[k])
}

/// Whether `order` lists every index of `keys` exactly once, greater keys
/// first and, among equal keys, lower indices first.
pub open spec fn is_ranking(keys: Seq<int>, order: Seq<int>) -> bool {
    &&& order.len() == keys.len()
    &&& forall|k: int| 0 <= k < order.len() ==> 0 <= #[trigger] order[k] < keys.len()
    &&& forall|i: int| 0 <= i < keys.len() ==> #[trigger] order.contains(i)
    &&& forall|k: int| 0 <= k < order.len() - 1 ==> ranks_before(keys, #[trigger] order[k], order[k + 1])
}

/// Whether index `a` comes before index `b` when `keys` are ranked.
pub open spec fn ranks_before(keys: Seq<int>, a: int, b: int) -> bool {
    keys[a] > keys[b] || (keys[a] == keys[b] && a < b)
}

/// Ranks the indices of `keys`: greater keys first, ties in index order.
pub fn rank_descending(keys: &Vec<i64>) -> (order: Vec<usize>)
    ensures
        is_ranking(keys@.map_values(|k: i64| k as int), order@.map_values(|k: usize| k as int)),
{
    let ghost ks = keys@.map_values(|k: i64| k as int);
    let mut order: Vec<usize> = Vec::new();
    let mut i: usize = 0;
    while i < keys.len()
        invariant
            i <= keys.len(),
            ks == keys@.map_values(|k: i64| k as int),
            order.len() == i,
            forall|k: int| 0 <= k < order.len() ==> 0 <= #[trigger] order[k] < i,
            forall|j: int| 0 <= j < i ==> #[trigger] order@.contains(j as usize),
            forall|k: int| 0 <= k < order.len() - 1 ==> ranks_before(ks, #[trigger] order[k] as int, order[k + 1] as int),
        decreases keys.len() - i,
    {
        let mut p: usize = 0;
        while p < order.len() && keys[order[p]] >= keys[i]
            invariant
                p <= order.len(),
                i < keys.len(),
                order.len() == i,
                forall|k: int| 0 <= k < order.len() ==> 0 <= #[trigger] order[k] < i,
                forall|k: int| 0 <= k < p ==> keys[order[k] as int] >= keys[i as int],
            decreases order.len() - p,
        {
            p += 1;
        }
        let ghost before = order@;
        order.insert(p, i);
        proof {
            let after = order@;
            assert forall|j: int| 0 <= j < i + 1 implies #[trigger] after.contains(j as usize) by {
                if j == i {
                    assert(after[p as int] == j);
                } else {
                    assert(before.contains(j as usize));
                    let q = choose|q: int| 0 <= q < before.len() && before[q] == j as usize;
                    if q < p {
                        assert(after[q] == j);
                    } else {
                        assert(after[q + 1] == j);
                    }
                }
            }
            assert forall|k: int| 0 <= k < after.len() - 1 implies ranks_before(ks, #[trigger] after[k] as int, after[k + 1] as int) by {
                if k + 1 < p {
                    assert(after[k] == before[k] && after[k + 1] == before[k + 1]);
                } else if k + 1 == p {
                    assert(after[k] == before[k]);
                } else if k == p {
                    assert(after[k + 1] == before[k]);
                } else {
                    assert(after[k] == before[k - 1] && after[k + 1] == before[k]);
                }
            }
        }
        i += 1;
    }
    proof {
        let out = order@.map_values(|k: usize| k as int);
        assert forall|j: int| 0 <= j < ks.len() implies #[trigger] out.contains(j) by {
            assert(order@.contains(j as usize));
            let q = choose|q: int| 0 <= q < order@.len() && order@[q] == j as usize;
            assert(out[q] == j);
        }
    }
    order
}


/// In a ranking, whatever stands earlier ranks before whatever stands later.
pub proof fn lemma_ranking_pairs(keys: Seq<int>, order: Seq<int>, p: int, q: int)
    requires
        is_ranking(keys, order),
        0 <= p < q < order.len(),
    ensures
        ranks_before(keys, order[p], order[q]),
    decreases q - p,
{
    if p + 1 < q {
        lemma_ranking_pairs(keys, order, p, q - 1);
        assert(ranks_before(keys, order[q - 1], order[q - 1 + 1]));
    } else {
        assert(ranks_before(keys, order[p], order[p + 1]));
    }
}

proof fn lemma_rankings_agree_upto(keys: Seq<int>, a: Seq<int>, b: Seq<int>, k: int)
    requires
        is_ranking(keys, a),
        is_ranking(keys, b),
        0 <= k <= keys.len(),
    ensures
        forall|j: int| 0 <= j < k ==> a[j] == b[j],
    decreases k,
{
    if k > 0 {
        lemma_rankings_agree_upto(keys, a, b, k - 1);
        let i = k - 1;
        let x = a[i];
        let y = b[i];
        assert(0 <= x < keys.len() && 0 <= y < keys.len());
        assert(b.contains(x));
        assert(a.contains(y));
        let q = choose|q: int| 0 <= q < b.len() && b[q] == x;
        let p = choose|p: int| 0 <= p < a.len() && a[p] == y;
        if q < i {
            assert(a[q] == b[q]);
            lemma_ranking_pairs(keys, a, q, i);
        } else if p < i {
            assert(a[p] == b[p]);
            lemma_ranking_pairs(keys, b, p, i);
        } else if q > i && p > i {
            lemma_ranking_pairs(keys, b, i, q);
            lemma_ranking_pairs(keys, a, i, p);
        }
    }
}

/// A list of keys has one ranking and no other.
pub proof fn lemma_ranking_is_unique(keys: Seq<int>, a: Seq<int>, b: Seq<int>)
    requires
        is_ranking(keys, a),
        is_ranking(keys, b),
    ensures
        a == b,
{
    lemma_rankings_agree_upto(keys, a, b, keys.len() as int);
    assert(a =~= b);
}

/// A list is ranked by a key in one way and no other.
pub proof fn lemma_ranked_by_is_unique<T>(
    rows: Seq<T>,
    key: spec_fn(T) -> int,
    a: Seq<T>,
    b: Seq<T>,
)
    requires
        is_ranked_by(rows, key, a),
        is_ranked_by(rows, key, b),
    ensures
        a == b,
{
    let oa = choose|order: Seq<int>| #[trigger]
        is_ranking(rows.map_values(key), order) && a == order.map_values(|k: int| rows[k]);
    let ob = choose|order: Seq<int>| #[trigger]
        is_ranking(rows.map_values(key), order) && b == order.map_values(|k: int| rows[k]);
    lemma_ranking_is_unique(rows.map_values(key), oa, ob);
}

} // verus!
