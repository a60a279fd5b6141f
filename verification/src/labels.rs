//! First-match lookup of a label in an ordered label list.

use vstd::prelude::*;

verus! {

/// The views of a sequence of strings.
pub open spec fn str_views(s: Seq<String>) -> Seq<Seq<char>> {
    Seq::new(s.len(), |i: int| s[i]@)
}

/// The first index of `x` in `labels`, or `-1` when absent.
pub open spec fn find_idx(labels: Seq<Seq<char>>, x: Seq<char>) -> int
    decreases labels.len(),
{
    if labels.len() == 0 {
        -1
    } else if labels[0] == x {
        0
    } else {
        let rest = find_idx(labels.skip(1), x);
        if rest < 0 {
            -1
        } else {
            rest + 1
        }
    }
}

/// `find_idx` returns the first match: a characterization usable to
/// conclude what a linear search computed.
pub proof fn lemma_find_idx(labels: Seq<Seq<char>>, x: Seq<char>)
    ensures
        find_idx(labels, x) == -1 ==> forall|i: int| 0 <= i < labels.len() ==> labels[i] != x,
        find_idx(labels, x) >= 0 ==> 0 <= find_idx(labels, x) < labels.len() && labels[find_idx(
            labels,
            x,
        )] == x && forall|i: int| 0 <= i < find_idx(labels, x) ==> labels[i] != x,
    decreases labels.len(),
{
    if labels.len() > 0 && labels[0] != x {
        let rest = labels.skip(1);
        lemma_find_idx(rest, x);
        assert(forall|i: int| 0 <= i < rest.len() ==> rest[i] == labels[i + 1]);
        assert(forall|j: int| 1 <= j < labels.len() ==> labels[j] == rest[j - 1]);
    }
}

/// The converse: a first match at `k` (or no match at all) pins `find_idx`.
pub proof fn lemma_find_idx_of(labels: Seq<Seq<char>>, x: Seq<char>, k: int)
    requires
        0 <= k <= labels.len(),
        forall|i: int| 0 <= i < k ==> labels[i] != x,
        k == labels.len() || labels[k] == x,
    ensures
        k < labels.len() ==> find_idx(labels, x) == k,
        k == labels.len() ==> find_idx(labels, x) == -1,
    decreases k,
{
    if labels.len() == 0 {
    } else if labels[0] == x {
    } else {
        lemma_find_idx_of(labels.skip(1), x, k - 1);
    }
}

/// Character-by-character equality of two string slices.
pub fn str_eq(a: &str, b: &str) -> (r: bool)
    ensures
        r == (a@ == b@),
{
    let n = a.unicode_len();
    let m = b.unicode_len();
    if n != m {
        return false;
    }
    let mut i: usize = 0;
    while i < n
        invariant
            i <= n,
            n == a@.len(),
            n == b@.len(),
            forall|j: int| 0 <= j < i ==> a@[j] == b@[j],
        decreases n - i,
    {
        if a.get_char(i) != b.get_char(i) {
            return false;
        }
        i = i + 1;
    }
    proof {
        assert(a@ =~= b@);
    }
    true
}

/// Linear search for `x` among the views of `v`.
pub fn find_string(v: &Vec<String>, x: &str) -> (r: Option<usize>)
    ensures
        match r {
            Some(i) => i == find_idx(str_views(v@), x@),
            None => find_idx(str_views(v@), x@) == -1,
        },
{
    let n = v.len();
    let mut i: usize = 0;
    while i < n
        invariant
            i <= n,
            n == v@.len(),
            forall|j: int| 0 <= j < i ==> str_views(v@)[j] != x@,
        decreases n - i,
    {
        if str_eq(v[i].as_str(), x) {
            proof {
                lemma_find_idx_of(str_views(v@), x@, i as int);
            }
            return Some(i);
        }
        i = i + 1;
    }
    proof {
        lemma_find_idx_of(str_views(v@), x@, n as int);
    }
    None
}

} // verus!
