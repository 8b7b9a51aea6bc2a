//! Searching sequences: the first and the last element that satisfies a predicate.
use vstd::prelude::*;

verus! {

/// The index of the first element of `s` that satisfies `p`, or -1 when none does.
pub open spec fn first_match<A>(s: Seq<A>, p: spec_fn(A) -> bool) -> int
    decreases s.len(),
{
    if s.len() == 0 {
        -1
    } else {
        let r = first_match(s.drop_last(), p);
        if r >= 0 {
            r
        } else if p(s.last()) {
            s.len() - 1
        } else {
            -1
        }
    }
}

/// The index of the last element of `s` that satisfies `p`, or -1 when none does.
pub open spec fn last_match<A>(s: Seq<A>, p: spec_fn(A) -> bool) -> int
    decreases s.len(),
{
    if s.len() == 0 {
        -1
    } else if p(s.last()) {
        s.len() - 1
    } else {
        last_match(s.drop_last(), p)
    }
}

/// `first_match` is the index of a match with no match before it, or -1 when
/// nothing matches.
pub proof fn lemma_first_match<A>(s: Seq<A>, p: spec_fn(A) -> bool)
    ensures
        -1 <= first_match(s, p) < s.len(),
        first_match(s, p) >= 0 ==> p(s[first_match(s, p)]),
        forall|j: int| 0 <= j < first_match(s, p) ==> !p(#[trigger] s[j]),
        first_match(s, p) < 0 ==> forall|j: int| 0 <= j < s.len() ==> !p(#[trigger] s[j]),
    decreases s.len(),
{
    if s.len() > 0 {
        let d = s.drop_last();
        lemma_first_match(d, p);
        let r = first_match(d, p);
        assert forall|j: int| 0 <= j < first_match(s, p) implies !p(#[trigger] s[j]) by {
            assert(s[j] == d[j]);
        }
        if first_match(s, p) < 0 {
            assert forall|j: int| 0 <= j < s.len() implies !p(#[trigger] s[j]) by {
                if j < s.len() - 1 {
                    assert(s[j] == d[j]);
                }
            }
        }
    }
}

/// `last_match` is the index of a match with no match after it, or -1 when
/// nothing matches.
pub proof fn lemma_last_match<A>(s: Seq<A>, p: spec_fn(A) -> bool)
    ensures
        -1 <= last_match(s, p) < s.len(),
        last_match(s, p) >= 0 ==> p(s[last_match(s, p)]),
        forall|j: int| last_match(s, p) < j < s.len() && 0 <= j ==> !p(#[trigger] s[j]),
    decreases s.len(),
{
    if s.len() > 0 {
        let d = s.drop_last();
        lemma_last_match(d, p);
        assert forall|j: int| last_match(s, p) < j < s.len() && 0 <= j implies !p(#[trigger] s[j]) by {
            if j < s.len() - 1 {
                assert(s[j] == d[j]);
            }
        }
    }
}

/// An index that matches, with no match before it, is the first match.
pub proof fn lemma_first_match_is<A>(s: Seq<A>, p: spec_fn(A) -> bool, i: int)
    requires
        0 <= i < s.len(),
        p(s[i]),
        forall|j: int| 0 <= j < i ==> !p(#[trigger] s[j]),
    ensures
        first_match(s, p) == i,
{
    lemma_first_match(s, p);
    if first_match(s, p) < i {
        assert(!p(s[first_match(s, p)]));
    }
}

/// When no element matches, `first_match` is -1.
pub proof fn lemma_first_match_none<A>(s: Seq<A>, p: spec_fn(A) -> bool)
    requires
        forall|j: int| 0 <= j < s.len() ==> !p(#[trigger] s[j]),
    ensures
        first_match(s, p) == -1,
{
    lemma_first_match(s, p);
    if first_match(s, p) >= 0 {
        assert(!p(s[first_match(s, p)]));
    }
}

/// Pointwise equal predicates on the elements find the same last match.
pub proof fn lemma_last_match_same<A, B>(
    s: Seq<A>,
    p: spec_fn(A) -> bool,
    t: Seq<B>,
    q: spec_fn(B) -> bool,
)
    requires
        s.len() == t.len(),
        forall|j: int| 0 <= j < s.len() ==> p(#[trigger] s[j]) == q(t[j]),
    ensures
        last_match(s, p) == last_match(t, q),
    decreases s.len(),
{
    if s.len() > 0 {
        assert(p(s[s.len() - 1]) == q(t[t.len() - 1]));
        assert forall|j: int| 0 <= j < s.len() - 1 implies p(#[trigger] s.drop_last()[j]) == q(
            t.drop_last()[j],
        ) by {
            assert(p(s[j]) == q(t[j]));
        }
        lemma_last_match_same(s.drop_last(), p, t.drop_last(), q);
    }
}

} // verus!
