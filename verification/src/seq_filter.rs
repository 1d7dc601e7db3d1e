//! Facts about `Seq::filter` that the proofs of this crate use.

use vstd::prelude::*;
use vstd::seq_lib::to_multiset_build;

verus! {

/// Filtering a sequence that ends in `x` filters what is before `x` and then
/// keeps or drops `x`.
pub proof fn lemma_filter_push<A>(s: Seq<A>, x: A, pred: spec_fn(A) -> bool)
    ensures
        s.push(x).filter(pred) == if pred(x) {
            s.filter(pred).push(x)
        } else {
            s.filter(pred)
        },
{
    reveal(Seq::filter);
    assert(s.push(x).drop_last() =~= s);
}

/// A predicate and its negation split a sequence: every element lands in
/// exactly one of the two filtered sequences.
pub proof fn lemma_filter_split_len<A>(
    s: Seq<A>,
    pred: spec_fn(A) -> bool,
    nope: spec_fn(A) -> bool,
)
    requires
        forall|x: A| #[trigger] nope(x) == !pred(x),
    ensures
        s.filter(pred).len() + s.filter(nope).len() == s.len(),
    decreases s.len(),
{
    reveal(Seq::filter);
    if s.len() > 0 {
        lemma_filter_split_len(s.drop_last(), pred, nope);
    }
}

/// Every element of a filtered sequence meets the predicate and comes from
/// the sequence that was filtered.
pub proof fn lemma_filter_elements<A>(s: Seq<A>, pred: spec_fn(A) -> bool)
    ensures
        forall|i: int|
            0 <= i < s.filter(pred).len() ==> pred(#[trigger] s.filter(pred)[i]) && s.contains(
                s.filter(pred)[i],
            ),
    decreases s.len(),
{
    reveal(Seq::filter);
    if s.len() > 0 {
        let front = s.drop_last();
        lemma_filter_elements(front, pred);
        assert forall|i: int| 0 <= i < s.filter(pred).len() implies pred(
            #[trigger] s.filter(pred)[i],
        ) && s.contains(s.filter(pred)[i]) by {
            if i < front.filter(pred).len() {
                let x = front.filter(pred)[i];
                assert(front.contains(x));
                let k = choose|k: int| 0 <= k < front.len() && front[k] == x;
                assert(s[k] == x);
            } else {
                assert(s[s.len() - 1] == s.last());
            }
        }
    }
}

/// Every element of a sequence that meets the predicate is in the filtered
/// sequence.
pub proof fn lemma_filter_keeps<A>(s: Seq<A>, pred: spec_fn(A) -> bool)
    ensures
        forall|i: int|
            0 <= i < s.len() && pred(#[trigger] s[i]) ==> s.filter(pred).contains(s[i]),
    decreases s.len(),
{
    reveal(Seq::filter);
    if s.len() > 0 {
        let front = s.drop_last();
        lemma_filter_keeps(front, pred);
        assert forall|i: int| 0 <= i < s.len() && pred(#[trigger] s[i]) implies s.filter(
            pred,
        ).contains(s[i]) by {
            if i < front.len() {
                assert(front[i] == s[i]);
                assert(front.filter(pred).contains(s[i]));
                let k = choose|k: int| 0 <= k < front.filter(pred).len() && front.filter(pred)[k]
                    == s[i];
                assert(s.filter(pred)[k] == s[i]);
            } else {
                assert(s.filter(pred)[s.filter(pred).len() - 1] == s[i]);
            }
        }
    }
}

/// A predicate and its negation split a sequence without loss: together the
/// two filtered sequences hold what the sequence holds, each element as often.
pub proof fn lemma_filter_split_multiset<A>(
    s: Seq<A>,
    pred: spec_fn(A) -> bool,
    nope: spec_fn(A) -> bool,
)
    requires
        forall|x: A| #[trigger] nope(x) == !pred(x),
    ensures
        s.filter(pred).to_multiset().add(s.filter(nope).to_multiset()) == s.to_multiset(),
    decreases s.len(),
{
    reveal(Seq::filter);
    if s.len() == 0 {
        s.to_multiset_ensures();
        assert(forall|x: A| !s.contains(x));
        assert(s.filter(pred).to_multiset().add(s.filter(nope).to_multiset()) =~= s.to_multiset());
    } else {
        let front = s.drop_last();
        let x = s.last();
        lemma_filter_split_multiset(front, pred, nope);
        assert(s =~= front.push(x));
        to_multiset_build(front, x);
        to_multiset_build(front.filter(pred), x);
        to_multiset_build(front.filter(nope), x);
        assert(s.filter(pred).to_multiset().add(s.filter(nope).to_multiset()) =~= s.to_multiset());
    }
}

/// Filtering a sequence whose elements all meet the predicate changes nothing.
pub proof fn lemma_filter_all<A>(s: Seq<A>, pred: spec_fn(A) -> bool)
    requires
        forall|i: int| 0 <= i < s.len() ==> pred(#[trigger] s[i]),
    ensures
        s.filter(pred) == s,
    decreases s.len(),
{
    reveal(Seq::filter);
    if s.len() > 0 {
        lemma_filter_all(s.drop_last(), pred);
        assert(s.drop_last().push(s.last()) =~= s);
    }
}

/// Filtering a sequence none of whose elements meets the predicate leaves
/// nothing.
pub proof fn lemma_filter_none<A>(s: Seq<A>, pred: spec_fn(A) -> bool)
    requires
        forall|i: int| 0 <= i < s.len() ==> !pred(#[trigger] s[i]),
    ensures
        s.filter(pred) == Seq::<A>::empty(),
    decreases s.len(),
{
    reveal(Seq::filter);
    if s.len() > 0 {
        lemma_filter_none(s.drop_last(), pred);
    } else {
        assert(s =~= Seq::<A>::empty());
    }
}

/// Whether `first` stands in `s` at some place before a place of `second`.
pub open spec fn occur_in_order<A>(s: Seq<A>, first: A, second: A) -> bool {
    exists|j: int, k: int|
        0 <= j < k < s.len() && #[trigger] s[j] == first && #[trigger] s[k] == second
}

/// Filtering keeps the order: two elements of a filtered sequence, one before
/// the other, stand in that order in the sequence that was filtered.
pub proof fn lemma_filter_keeps_order<A>(s: Seq<A>, pred: spec_fn(A) -> bool)
    ensures
        forall|a: int, b: int|
            0 <= a < b < s.filter(pred).len() ==> occur_in_order(
                s,
                #[trigger] s.filter(pred)[a],
                #[trigger] s.filter(pred)[b],
            ),
    decreases s.len(),
{
    reveal(Seq::filter);
    if s.len() > 0 {
        let front = s.drop_last();
        let kept = front.filter(pred);
        lemma_filter_keeps_order(front, pred);
        lemma_filter_elements(front, pred);
        assert forall|a: int, b: int| 0 <= a < b < s.filter(pred).len() implies occur_in_order(
            s,
            #[trigger] s.filter(pred)[a],
            #[trigger] s.filter(pred)[b],
        ) by {
            let first = s.filter(pred)[a];
            let second = s.filter(pred)[b];
            if b < kept.len() {
                assert(occur_in_order(front, kept[a], kept[b]));
                let (j, k) = choose|j: int, k: int|
                    0 <= j < k < front.len() && #[trigger] front[j] == first && #[trigger] front[k]
                        == second;
                assert(s[j] == first && s[k] == second);
            } else {
                assert(front.contains(kept[a]));
                let j = choose|j: int| 0 <= j < front.len() && front[j] == first;
                assert(s[j] == first && s[s.len() - 1] == second);
            }
        }
    }
}

} // verus!
