//! First-match search over sequences, the shape of every `iter().find` and
//! `iter().position` in the team logic.
use vstd::prelude::*;

verus! {

/// The first index at or after `i` whose element satisfies `p`
/// (`s.len()` when there is none).
pub open spec fn first_from<T>(s: Seq<T>, p: spec_fn(T) -> bool, i: int) -> int
    decreases s.len() - i,
{
    if i >= s.len() {
        s.len() as int
    } else if p(s[i]) {
        i
    } else {
        first_from(s, p, i + 1)
    }
}

/// The first index whose element satisfies `p` (`s.len()` when there is none).
pub open spec fn first_index<T>(s: Seq<T>, p: spec_fn(T) -> bool) -> int {
    first_from(s, p, 0)
}

/// The first element that satisfies `p`.
pub open spec fn find_first<T>(s: Seq<T>, p: spec_fn(T) -> bool) -> Option<T> {
    let i = first_index(s, p);
    if i < s.len() {
        Some(s[i])
    } else {
        None
    }
}

pub proof fn lemma_first_from<T>(s: Seq<T>, p: spec_fn(T) -> bool, i: int)
    requires
        0 <= i <= s.len(),
    ensures
        i <= first_from(s, p, i) <= s.len(),
        first_from(s, p, i) < s.len() ==> p(s[first_from(s, p, i)]),
        forall|k: int| i <= k < first_from(s, p, i) ==> !p(#[trigger] s[k]),
    decreases s.len() - i,
{
    if i < s.len() && !p(s[i]) {
        lemma_first_from(s, p, i + 1);
    }
}

/// What `first_index` is, in words: the index of a matching element with no
/// match before it, or the length when nothing matches.
pub proof fn lemma_first_index<T>(s: Seq<T>, p: spec_fn(T) -> bool)
    ensures
        0 <= first_index(s, p) <= s.len(),
        first_index(s, p) < s.len() ==> p(s[first_index(s, p)]),
        forall|k: int| 0 <= k < first_index(s, p) ==> !p(#[trigger] s[k]),
        first_index(s, p) == s.len() <==> forall|k: int| 0 <= k < s.len() ==> !p(#[trigger] s[k]),
{
    lemma_first_from(s, p, 0);
}

/// An index with a match and no match before it is the first index.
pub proof fn lemma_first_index_is<T>(s: Seq<T>, p: spec_fn(T) -> bool, i: int)
    requires
        0 <= i <= s.len(),
        i < s.len() ==> p(s[i]),
        forall|k: int| 0 <= k < i ==> !p(#[trigger] s[k]),
    ensures
        first_index(s, p) == i,
{
    lemma_first_index(s, p);
    let f = first_index(s, p);
    if f < i {
        assert(!p(s[f]));
    }
    if i < f {
        assert(!p(s[i]));
    }
}

/// Replacing an element by one that matches `p` exactly when the old one did
/// leaves the first index unchanged.
pub proof fn lemma_first_index_update<T>(s: Seq<T>, p: spec_fn(T) -> bool, j: int, x: T)
    requires
        0 <= j < s.len(),
        p(x) == p(s[j]),
    ensures
        first_index(s.update(j, x), p) == first_index(s, p),
{
    lemma_first_index(s, p);
    let f = first_index(s, p);
    let t = s.update(j, x);
    assert forall|k: int| 0 <= k < f implies !p(#[trigger] t[k]) by {
        assert(!p(s[k]));
    }
    if f < s.len() {
        assert(p(t[f]));
    }
    lemma_first_index_is(t, p, f);
}

/// Appending an element leaves an existing first match where it was, and is
/// the first match when nothing matched before.
pub proof fn lemma_first_index_push<T>(s: Seq<T>, p: spec_fn(T) -> bool, x: T)
    ensures
        first_index(s, p) < s.len() ==> first_index(s.push(x), p) == first_index(s, p),
        first_index(s, p) == s.len() ==> first_index(s.push(x), p) == s.len() + (if p(x) {
            0int
        } else {
            1int
        }),
{
    lemma_first_index(s, p);
    let f = first_index(s, p);
    let t = s.push(x);
    assert forall|k: int| 0 <= k < f implies !p(#[trigger] t[k]) by {
        assert(!p(s[k]));
    }
    if f < s.len() {
        assert(p(t[f]));
        lemma_first_index_is(t, p, f);
    } else {
        if p(x) {
            lemma_first_index_is(t, p, f);
        } else {
            lemma_first_index_is(t, p, f + 1);
        }
    }
}

} // verus!
