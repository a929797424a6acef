//! Small general facts about `Seq::filter` that the overload-partitioning
//! law rests on: witnesses give lower bounds on the filtered length, a
//! pointwise-stronger predicate keeps no more elements, and two filters in a
//! row act as one.

use vstd::prelude::*;

verus! {

/// One index satisfying the predicate keeps the filtered sequence non-empty.
pub proof fn lemma_filter_witness_one<A>(s: Seq<A>, q: spec_fn(A) -> bool, j: int)
    requires
        0 <= j < s.len(),
        q(s[j]),
    ensures
        s.filter(q).len() >= 1,
    decreases s.len(),
{
    assert(s =~= s.drop_last().push(s.last()));
    s.drop_last().lemma_filter_push(s.last(), q);
    if j < s.len() - 1 {
        lemma_filter_witness_one(s.drop_last(), q, j);
    }
}

/// Two distinct indices satisfying the predicate keep at least two elements.
pub proof fn lemma_filter_witness_two<A>(s: Seq<A>, q: spec_fn(A) -> bool, j: int, k: int)
    requires
        0 <= j < k < s.len(),
        q(s[j]),
        q(s[k]),
    ensures
        s.filter(q).len() >= 2,
    decreases s.len(),
{
    assert(s =~= s.drop_last().push(s.last()));
    s.drop_last().lemma_filter_push(s.last(), q);
    if k < s.len() - 1 {
        lemma_filter_witness_two(s.drop_last(), q, j, k);
    } else {
        lemma_filter_witness_one(s.drop_last(), q, j);
    }
}

/// A predicate that implies another, over the elements of the sequence,
/// keeps no more elements than the weaker one.
pub proof fn lemma_filter_implies_len<A>(s: Seq<A>, p: spec_fn(A) -> bool, q: spec_fn(A) -> bool)
    requires
        forall|x: A| #[trigger] s.contains(x) ==> (p(x) ==> q(x)),
    ensures
        s.filter(p).len() <= s.filter(q).len(),
    decreases s.len(),
{
    if s.len() > 0 {
        assert(s =~= s.drop_last().push(s.last()));
        s.drop_last().lemma_filter_push(s.last(), p);
        s.drop_last().lemma_filter_push(s.last(), q);
        assert(s.contains(s.last()));
        assert forall|x: A| #[trigger] s.drop_last().contains(x) && p(x) implies q(x) by {
            assert(s.contains(x));
        }
        lemma_filter_implies_len(s.drop_last(), p, q);
    }
}

/// Filtering twice keeps exactly the elements of the conjoined predicate.
pub proof fn lemma_filter_filter<A>(
    s: Seq<A>,
    p: spec_fn(A) -> bool,
    q: spec_fn(A) -> bool,
    pq: spec_fn(A) -> bool,
)
    requires
        forall|x: A| #[trigger] s.contains(x) ==> (pq(x) == (p(x) && q(x))),
    ensures
        s.filter(p).filter(q) == s.filter(pq),
    decreases s.len(),
{
    if s.len() == 0 {
        assert(s.filter(p) =~= s);
        assert(s.filter(pq) =~= s);
        assert(s.filter(p).filter(q) =~= s);
    } else {
        assert(s =~= s.drop_last().push(s.last()));
        s.drop_last().lemma_filter_push(s.last(), p);
        s.drop_last().lemma_filter_push(s.last(), pq);
        assert(s.contains(s.last()));
        assert forall|x: A| #[trigger] s.drop_last().contains(x) implies (pq(x) == (p(x) && q(
            x,
        ))) by {
            assert(s.contains(x));
        }
        lemma_filter_filter(s.drop_last(), p, q, pq);
        if p(s.last()) {
            s.drop_last().filter(p).lemma_filter_push(s.last(), q);
        }
    }
}

} // verus!
