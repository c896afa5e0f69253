//! Facts about filtering sequences, used by the proofs of the history laws.

use vstd::prelude::*;

verus! {

/// Filtering with a weaker predicate keeps at least as many elements; strictly
/// more when some element passes only the weaker one.
pub proof fn lemma_filter_len_mono<A>(s: Seq<A>, p: spec_fn(A) -> bool, q: spec_fn(A) -> bool)
    requires
        forall|i: int| 0 <= i < s.len() && #[trigger] p(s[i]) ==> q(s[i]),
    ensures
        s.filter(p).len() <= s.filter(q).len(),
        (exists|i: int| 0 <= i < s.len() && q(s[i]) && !p(s[i])) ==> s.filter(p).len() < s.filter(
            q,
        ).len(),
    decreases s.len(),
{
    reveal(Seq::filter);
    if s.len() > 0 {
        let t = s.drop_last();
        assert forall|i: int| 0 <= i < t.len() && #[trigger] p(t[i]) implies q(t[i]) by {
            assert(t[i] == s[i]);
        }
        lemma_filter_len_mono(t, p, q);
        if exists|i: int| 0 <= i < s.len() && q(s[i]) && !p(s[i]) {
            let i = choose|i: int| 0 <= i < s.len() && q(s[i]) && !p(s[i]);
            if i < s.len() - 1 {
                assert(t[i] == s[i]);
            }
        }
    }
}

/// Filtering keeps everything when every element passes.
pub proof fn lemma_filter_all<A>(s: Seq<A>, p: spec_fn(A) -> bool)
    requires
        forall|i: int| 0 <= i < s.len() ==> #[trigger] p(s[i]),
    ensures
        s.filter(p) == s,
    decreases s.len(),
{
    reveal(Seq::filter);
    if s.len() > 0 {
        let t = s.drop_last();
        assert forall|i: int| 0 <= i < t.len() implies #[trigger] p(t[i]) by {
            assert(t[i] == s[i]);
        }
        lemma_filter_all(t, p);
        assert(s.filter(p) =~= s);
    }
}

/// Filtering keeps nothing when no element passes.
pub proof fn lemma_filter_none<A>(s: Seq<A>, p: spec_fn(A) -> bool)
    requires
        forall|i: int| 0 <= i < s.len() ==> !#[trigger] p(s[i]),
    ensures
        s.filter(p).len() == 0,
    decreases s.len(),
{
    reveal(Seq::filter);
    if s.len() > 0 {
        let t = s.drop_last();
        assert forall|i: int| 0 <= i < t.len() implies !#[trigger] p(t[i]) by {
            assert(t[i] == s[i]);
        }
        lemma_filter_none(t, p);
    }
}

/// Filtering twice is filtering once by both predicates.
pub proof fn lemma_filter_filter<A>(
    s: Seq<A>,
    p: spec_fn(A) -> bool,
    q: spec_fn(A) -> bool,
    pq: spec_fn(A) -> bool,
)
    requires
        forall|x: A| #[trigger] pq(x) == (p(x) && q(x)),
    ensures
        s.filter(p).filter(q) == s.filter(pq),
    decreases s.len(),
{
    reveal(Seq::filter);
    if s.len() > 0 {
        let t = s.drop_last();
        lemma_filter_filter(t, p, q, pq);
        let x = s.last();
        if p(x) {
            assert(s.filter(p).drop_last() =~= t.filter(p));
            assert(s.filter(p).last() == x);
        } else {
            assert(s.filter(p) == t.filter(p));
        }
    }
}

/// A predicate that is the disjoint union of two others counts their sum.
pub proof fn lemma_filter_split<A>(
    s: Seq<A>,
    p: spec_fn(A) -> bool,
    p1: spec_fn(A) -> bool,
    p2: spec_fn(A) -> bool,
)
    requires
        forall|i: int|
            0 <= i < s.len() ==> (#[trigger] p(s[i]) == (p1(s[i]) || p2(s[i]))) && !(p1(s[i])
                && p2(s[i])),
    ensures
        s.filter(p).len() == s.filter(p1).len() + s.filter(p2).len(),
    decreases s.len(),
{
    reveal(Seq::filter);
    if s.len() > 0 {
        let t = s.drop_last();
        assert forall|i: int| 0 <= i < t.len() implies (#[trigger] p(t[i]) == (p1(t[i]) || p2(
            t[i],
        ))) && !(p1(t[i]) && p2(t[i])) by {
            assert(t[i] == s[i]);
        }
        lemma_filter_split(t, p, p1, p2);
        assert(p(s[s.len() - 1]) == (p1(s[s.len() - 1]) || p2(s[s.len() - 1])));
    }
}

/// Each element of a filtered sequence comes from some position of the original.
pub proof fn lemma_filter_elements<A>(s: Seq<A>, p: spec_fn(A) -> bool, k: int)
    requires
        0 <= k < s.filter(p).len(),
    ensures
        exists|i: int| 0 <= i < s.len() && s[i] == s.filter(p)[k] && p(s[i]),
    decreases s.len(),
{
    reveal(Seq::filter);
    let t = s.drop_last();
    if p(s.last()) && k == s.filter(p).len() - 1 {
        assert(s[s.len() - 1] == s.filter(p)[k]);
    } else {
        if p(s.last()) {
            assert(s.filter(p)[k] == t.filter(p)[k]);
        }
        lemma_filter_elements(t, p, k);
        let i = choose|i: int| 0 <= i < t.len() && t[i] == t.filter(p)[k] && p(t[i]);
        assert(s[i] == t[i]);
    }
}

} // verus!
