//! Small general facts about sequence filtering that the stores share.

use vstd::prelude::*;

verus! {

/// Filtering after appending one element keeps the filtered prefix and
/// appends the element exactly when it passes the predicate.
pub proof fn lemma_filter_push<A>(s: Seq<A>, p: spec_fn(A) -> bool, e: A)
    ensures
        s.push(e).filter(p) == (if p(e) {
            s.filter(p).push(e)
        } else {
            s.filter(p)
        }),
{
    reveal(Seq::filter);
    assert(s.push(e).drop_last() =~= s);
}

/// Two filters in a row are one filter by the conjunction.
pub proof fn lemma_filter_filter<A>(
    s: Seq<A>,
    p: spec_fn(A) -> bool,
    q: spec_fn(A) -> bool,
    pq: spec_fn(A) -> bool,
)
    requires
        forall|x: A| #[trigger] pq(x) == (p(x) && q(x)),
    ensures
        s.filter(p).filter(q) =~= s.filter(pq),
    decreases s.len(),
{
    reveal(Seq::filter);
    if s.len() == 0 {
    } else {
        let dl = s.drop_last();
        let l = s.last();
        lemma_filter_filter(dl, p, q, pq);
        if p(l) {
            assert(s.filter(p) == dl.filter(p).push(l));
            lemma_filter_push(dl.filter(p), q, l);
        }
    }
}

/// Everything a filter keeps comes from the filtered sequence.
pub proof fn lemma_filter_membership<A>(s: Seq<A>, p: spec_fn(A) -> bool)
    ensures
        forall|i: int| 0 <= i < s.filter(p).len() ==> s.contains(#[trigger] s.filter(p)[i]),
    decreases s.len(),
{
    reveal(Seq::filter);
    if s.len() > 0 {
        let dl = s.drop_last();
        lemma_filter_membership(dl, p);
        assert forall|i: int| 0 <= i < s.filter(p).len() implies s.contains(
            #[trigger] s.filter(p)[i],
        ) by {
            if i < dl.filter(p).len() {
                assert(s.filter(p)[i] == dl.filter(p)[i]);
                assert(dl.contains(dl.filter(p)[i]));
                let m = choose|m: int| 0 <= m < dl.len() && dl[m] == dl.filter(p)[i];
                assert(s[m] == dl[m]);
            } else {
                assert(s.filter(p)[i] == s.last());
                assert(s[s.len() - 1] == s.last());
            }
        }
    }
}

/// Filtering a sequence whose elements carry pairwise distinct keys yields
/// one whose elements still carry pairwise distinct keys.
pub proof fn lemma_filter_unique_keys<A, B>(s: Seq<A>, p: spec_fn(A) -> bool, key: spec_fn(A) -> B)
    requires
        forall|i: int, j: int| 0 <= i < j < s.len() ==> key(#[trigger] s[i]) != key(#[trigger] s[j]),
    ensures
        forall|i: int, j: int|
            0 <= i < j < s.filter(p).len() ==> key(#[trigger] s.filter(p)[i]) != key(
                #[trigger] s.filter(p)[j],
            ),
    decreases s.len(),
{
    reveal(Seq::filter);
    if s.len() > 0 {
        let dl = s.drop_last();
        assert forall|i: int, j: int|
            0 <= i < j < dl.len() implies key(#[trigger] dl[i]) != key(#[trigger] dl[j]) by {
            assert(dl[i] == s[i]);
            assert(dl[j] == s[j]);
        }
        lemma_filter_unique_keys(dl, p, key);
        lemma_filter_membership(dl, p);
        assert forall|i: int, j: int|
            0 <= i < j < s.filter(p).len() implies key(#[trigger] s.filter(p)[i]) != key(
            #[trigger] s.filter(p)[j],
        ) by {
            if p(s.last()) && j == s.filter(p).len() - 1 {
                assert(s.filter(p)[j] == s.last());
                assert(s.filter(p)[i] == dl.filter(p)[i]);
                assert(dl.contains(dl.filter(p)[i]));
                let m = choose|m: int| 0 <= m < dl.len() && dl[m] == dl.filter(p)[i];
                assert(dl[m] == s[m]);
                assert(s.last() == s[s.len() - 1]);
                assert(key(s[m]) != key(s[s.len() - 1]));
            } else {
                assert(s.filter(p)[i] == dl.filter(p)[i]);
                assert(s.filter(p)[j] == dl.filter(p)[j]);
            }
        }
    }
}

/// Membership in a sequence extended by one element.
pub proof fn lemma_contains_push<A>(s: Seq<A>, e: A, x: A)
    ensures
        s.push(e).contains(x) == (s.contains(x) || x == e),
{
    if s.push(e).contains(x) {
        let j = choose|j: int| 0 <= j < s.push(e).len() && s.push(e)[j] == x;
        if j < s.len() {
            assert(s[j] == x);
        }
    }
    if s.contains(x) {
        let j = choose|j: int| 0 <= j < s.len() && s[j] == x;
        assert(s.push(e)[j] == x);
    }
    if x == e {
        assert(s.push(e)[s.len() as int] == x);
    }
}

/// A second filter by a predicate that, on the sequence's elements, is no
/// wider than the first collapses to the second filter alone.
pub proof fn lemma_filter_restrict<A>(s: Seq<A>, p: spec_fn(A) -> bool, q: spec_fn(A) -> bool)
    requires
        forall|i: int| 0 <= i < s.len() && q(#[trigger] s[i]) ==> p(s[i]),
    ensures
        s.filter(p).filter(q) =~= s.filter(q),
    decreases s.len(),
{
    reveal(Seq::filter);
    if s.len() > 0 {
        let dl = s.drop_last();
        let l = s.last();
        assert(l == s[s.len() - 1]);
        assert forall|i: int| 0 <= i < dl.len() && q(#[trigger] dl[i]) implies p(dl[i]) by {
            assert(dl[i] == s[i]);
        }
        lemma_filter_restrict(dl, p, q);
        if q(l) {
            assert(p(l));
            assert(s.filter(p) == dl.filter(p).push(l));
            lemma_filter_push(dl.filter(p), q, l);
        } else if p(l) {
            assert(s.filter(p) == dl.filter(p).push(l));
            lemma_filter_push(dl.filter(p), q, l);
        }
    }
}

/// A filter that every element passes returns the sequence unchanged.
pub proof fn lemma_filter_all<A>(s: Seq<A>, p: spec_fn(A) -> bool)
    requires
        forall|i: int| 0 <= i < s.len() ==> p(#[trigger] s[i]),
    ensures
        s.filter(p) =~= s,
    decreases s.len(),
{
    reveal(Seq::filter);
    if s.len() > 0 {
        assert(s.last() == s[s.len() - 1]);
        assert forall|i: int| 0 <= i < s.drop_last().len() implies p(#[trigger] s.drop_last()[i]) by {
            assert(s.drop_last()[i] == s[i]);
        }
        lemma_filter_all(s.drop_last(), p);
    }
}

/// A filter that no element passes returns the empty sequence.
pub proof fn lemma_filter_none<A>(s: Seq<A>, p: spec_fn(A) -> bool)
    requires
        forall|i: int| 0 <= i < s.len() ==> !p(#[trigger] s[i]),
    ensures
        s.filter(p) =~= Seq::<A>::empty(),
    decreases s.len(),
{
    reveal(Seq::filter);
    if s.len() > 0 {
        assert(s.last() == s[s.len() - 1]);
        assert forall|i: int| 0 <= i < s.drop_last().len() implies !p(#[trigger] s.drop_last()[i])
            by {
            assert(s.drop_last()[i] == s[i]);
        }
        lemma_filter_none(s.drop_last(), p);
    }
}

} // verus!
