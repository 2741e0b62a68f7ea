//! Sequence facts used by the search loops of the library.

use vstd::prelude::*;

verus! {

/// Index of the first element of `s` that satisfies `p`, or -1 when none does.
pub open spec fn first_index<A>(s: Seq<A>, p: spec_fn(A) -> bool) -> int
    decreases s.len(),
{
    if s.len() == 0 {
        -1
    } else {
        let r = first_index(s.drop_last(), p);
        if r >= 0 {
            r
        } else if p(s.last()) {
            s.len() - 1
        } else {
            -1
        }
    }
}

/// `first_index` names the first satisfying position, or -1 exactly when no
/// element satisfies `p`.
pub proof fn lemma_first_index<A>(s: Seq<A>, p: spec_fn(A) -> bool)
    ensures
        -1 <= first_index(s, p) < s.len(),
        first_index(s, p) >= 0 ==> p(s[first_index(s, p)]),
        first_index(s, p) >= 0 ==> forall|j: int| 0 <= j < first_index(s, p) ==> !p(#[trigger] s[j]),
        first_index(s, p) < 0 ==> forall|j: int| 0 <= j < s.len() ==> !p(#[trigger] s[j]),
    decreases s.len(),
{
    if s.len() > 0 {
        lemma_first_index(s.drop_last(), p);
        assert forall|j: int| 0 <= j < s.len() - 1 implies s.drop_last()[j] == s[j] by {}
    }
}

/// An index `i` where `p` holds and no earlier element satisfies `p` is the
/// first index.
pub proof fn lemma_first_index_is<A>(s: Seq<A>, p: spec_fn(A) -> bool, i: int)
    requires
        0 <= i < s.len(),
        p(s[i]),
        forall|j: int| 0 <= j < i ==> !p(#[trigger] s[j]),
    ensures
        first_index(s, p) == i,
{
    lemma_first_index(s, p);
    if first_index(s, p) < i {
        assert(!p(s[first_index(s, p)]));
    }
}

/// When no element satisfies `p`, the first index is -1.
pub proof fn lemma_first_index_none<A>(s: Seq<A>, p: spec_fn(A) -> bool)
    requires
        forall|j: int| 0 <= j < s.len() ==> !p(#[trigger] s[j]),
    ensures
        first_index(s, p) == -1,
{
    lemma_first_index(s, p);
    if first_index(s, p) >= 0 {
        assert(p(s[first_index(s, p)]));
    }
}

/// Index of the last element of `s` that satisfies `p`, or -1 when none does.
pub open spec fn last_index<A>(s: Seq<A>, p: spec_fn(A) -> bool) -> int
    decreases s.len(),
{
    if s.len() == 0 {
        -1
    } else if p(s.last()) {
        s.len() - 1
    } else {
        last_index(s.drop_last(), p)
    }
}

/// `last_index` names the last satisfying position, or -1 exactly when no
/// element satisfies `p`.
pub proof fn lemma_last_index<A>(s: Seq<A>, p: spec_fn(A) -> bool)
    ensures
        -1 <= last_index(s, p) < s.len(),
        last_index(s, p) >= 0 ==> p(s[last_index(s, p)]),
        forall|j: int| last_index(s, p) < j < s.len() ==> !p(#[trigger] s[j]),
    decreases s.len(),
{
    if s.len() > 0 {
        lemma_last_index(s.drop_last(), p);
        assert forall|j: int| 0 <= j < s.len() - 1 implies s.drop_last()[j] == s[j] by {}
    }
}

/// Extending a prefix by one element: the filter of `s.take(k + 1)` is the
/// filter of `s.take(k)`, followed by `s[k]` when it is kept.
pub proof fn lemma_filter_take_step<A>(s: Seq<A>, p: spec_fn(A) -> bool, k: int)
    requires
        0 <= k < s.len(),
    ensures
        s.take(k + 1).filter(p) == (if p(s[k]) {
            s.take(k).filter(p).push(s[k])
        } else {
            s.take(k).filter(p)
        }),
{
    reveal(Seq::filter);
    assert(s.take(k + 1).drop_last() =~= s.take(k));
    assert(s.take(k + 1).last() == s[k]);
}

} // verus!
