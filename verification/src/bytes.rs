//! Byte-sequence helpers: equality, slicing, and first-occurrence substring
//! search. The search is the index-based scanning that the section patcher
//! relies on for its "first match only" semantics.

use vstd::prelude::*;
use vstd::slice::slice_subrange;
use vstd::slice::slice_to_vec;

verus! {

/// The pattern `p` occurs in `t` at position `i`.
pub open spec fn is_match_at(t: Seq<u8>, p: Seq<u8>, i: int) -> bool {
    &&& 0 <= i
    &&& i + p.len() <= t.len()
    &&& t.subrange(i, i + p.len() as int) == p
}

/// Exact equality of two byte vectors.
pub fn bytes_eq(a: &Vec<u8>, b: &Vec<u8>) -> (r: bool)
    ensures
        r == (a@ =~= b@),
{
    let r: bool = a == b;
    r
}

/// A copy of `v[i..j]` as a fresh vector.
pub fn subvec(v: &Vec<u8>, i: usize, j: usize) -> (r: Vec<u8>)
    requires
        i <= j <= v@.len(),
    ensures
        r@ == v@.subrange(i as int, j as int),
{
    slice_to_vec(slice_subrange(v.as_slice(), i, j))
}

/// Whether `pat` occurs in `text` at exactly position `i`.
fn matches_at(text: &Vec<u8>, pat: &Vec<u8>, i: usize) -> (r: bool)
    requires
        i + pat@.len() <= text@.len(),
    ensures
        r == is_match_at(text@, pat@, i as int),
{
    let n: usize = pat.len();
    let tn: usize = text.len();
    let mut k: usize = 0;
    while k < n
        invariant
            0 <= k <= n,
            n == pat@.len(),
            tn == text@.len(),
            i + n <= tn,
            forall|m: int| 0 <= m < k ==> text@[i + m] == pat@[m],
        decreases n - k,
    {
        if text[i + k] != pat[k] {
            assert(text@.subrange(i as int, i + n as int)[k as int] != pat@[k as int]);
            return false;
        }
        k = k + 1;
    }
    assert(text@.subrange(i as int, i + n as int) =~= pat@);
    true
}

/// First occurrence of `pat` in `text` at or after position `from`,
/// or `None` when there is none.
pub fn find_from(text: &Vec<u8>, pat: &Vec<u8>, from: usize) -> (r: Option<usize>)
    requires
        pat@.len() >= 1,
    ensures
        match r {
            Some(i) => {
                &&& from <= i
                &&& is_match_at(text@, pat@, i as int)
                &&& forall|j: int| from <= j < i ==> !is_match_at(text@, pat@, j)
            },
            None => forall|j: int| from <= j ==> !is_match_at(text@, pat@, j),
        },
{
    let tn: usize = text.len();
    let pn: usize = pat.len();
    if pn > tn || from > tn - pn {
        assert(forall|j: int| from <= j ==> !is_match_at(text@, pat@, j));
        return None;
    }
    let last: usize = tn - pn;
    let mut i: usize = from;
    while i <= last
        invariant
            from <= i <= last + 1,
            last == tn - pn,
            1 <= pn <= tn,
            tn == text@.len(),
            pn == pat@.len(),
            forall|j: int| from <= j < i ==> !is_match_at(text@, pat@, j),
        decreases tn - i,
    {
        if matches_at(text, pat, i) {
            return Some(i);
        }
        i = i + 1;
    }
    assert(forall|j: int| from <= j ==> !is_match_at(text@, pat@, j)) by {
        assert(forall|j: int| j > last ==> !is_match_at(text@, pat@, j));
    }
    None
}

/// The view of an optional byte vector.
pub open spec fn opt_view(o: Option<Vec<u8>>) -> Option<Seq<u8>> {
    match o {
        Some(v) => Some(v@),
        None => None,
    }
}

} // verus!
