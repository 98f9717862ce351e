//! Sequences that hold the same items in another order, and what they keep.

use vstd::multiset::group_multiset_axioms;
use vstd::prelude::*;
use vstd::seq_lib::group_to_multiset_ensures;

verus! {

/// Whether two sequences hold the same items, each as often as the other.
pub open spec fn same_items<A>(a: Seq<A>, b: Seq<A>) -> bool {
    a.to_multiset() == b.to_multiset()
}

/// Sequences that hold the same items have the same length.
pub proof fn lemma_same_length<A>(a: Seq<A>, b: Seq<A>)
    requires
        same_items(a, b),
    ensures
        a.len() == b.len(),
{
    broadcast use group_to_multiset_ensures;

    assert(a.to_multiset().len() == a.len());
    assert(b.to_multiset().len() == b.len());
}

/// Where two sequences hold the same items, the last item of the first stands
/// somewhere in the second, and the rest of both hold the same items.
pub proof fn lemma_peel<A>(a: Seq<A>, b: Seq<A>) -> (at: int)
    requires
        same_items(a, b),
        a.len() > 0,
    ensures
        0 <= at < b.len(),
        b[at] == a.last(),
        same_items(a.drop_last(), b.remove(at)),
        b == b.remove(at).insert(at, a.last()),
        a == a.drop_last().push(a.last()),
{
    broadcast use group_to_multiset_ensures;

    let x = a.last();
    assert(a.contains(x));
    assert(a.to_multiset().contains(x));
    assert(b.contains(x));
    let at = choose|j: int| 0 <= j < b.len() && b[j] == x;
    assert(a.drop_last() =~= a.remove(a.len() - 1));
    assert(a.drop_last().to_multiset() == a.to_multiset().remove(x));
    assert(b.remove(at).to_multiset() == b.to_multiset().remove(x));
    assert(b =~= b.remove(at).insert(at, x));
    assert(a =~= a.drop_last().push(x));
    at
}

/// What a filter keeps of a sequence with one more item.
pub proof fn lemma_filter_insert<A>(s: Seq<A>, at: int, x: A, keep: spec_fn(A) -> bool)
    requires
        0 <= at <= s.len(),
    ensures
        s.insert(at, x).filter(keep).to_multiset() == if keep(x) {
            s.filter(keep).to_multiset().insert(x)
        } else {
            s.filter(keep).to_multiset()
        },
    decreases s.len() - at,
{
    broadcast use group_to_multiset_ensures;
    broadcast use group_multiset_axioms;

    let longer = s.insert(at, x);
    if at == s.len() {
        assert(longer =~= s.push(x));
        s.lemma_filter_push(x, keep);
    } else {
        let last = s.last();
        assert(longer =~= s.drop_last().insert(at, x).push(last));
        assert(s =~= s.drop_last().push(last));
        s.drop_last().insert(at, x).lemma_filter_push(last, keep);
        s.drop_last().lemma_filter_push(last, keep);
        lemma_filter_insert(s.drop_last(), at, x, keep);
        let short = s.drop_last().filter(keep).to_multiset();
        if keep(last) && keep(x) {
            assert(short.insert(x).insert(last) =~= short.insert(last).insert(x));
        }
    }
}

/// A filter keeps the same items of sequences that hold the same items.
pub proof fn lemma_filter_same_items<A>(a: Seq<A>, b: Seq<A>, keep: spec_fn(A) -> bool)
    requires
        same_items(a, b),
    ensures
        same_items(a.filter(keep), b.filter(keep)),
        a.filter(keep).len() == b.filter(keep).len(),
    decreases a.len(),
{
    lemma_same_length(a, b);
    if a.len() == 0 {
        assert(a =~= b);
    } else {
        let at = lemma_peel(a, b);
        lemma_filter_same_items(a.drop_last(), b.remove(at), keep);
        lemma_filter_insert(a.drop_last(), a.len() - 1, a.last(), keep);
        assert(a.drop_last().insert(a.len() - 1, a.last()) =~= a);
        lemma_filter_insert(b.remove(at), at, a.last(), keep);
    }
    lemma_same_length(a.filter(keep), b.filter(keep));
}

/// Two filters one after the other keep the same, whichever comes first.
pub proof fn lemma_filters_commute<A>(s: Seq<A>, p: spec_fn(A) -> bool, q: spec_fn(A) -> bool)
    ensures
        s.filter(p).filter(q) == s.filter(q).filter(p),
    decreases s.len(),
{
    if s.len() == 0 {
        reveal(Seq::filter);
    } else {
        let rest = s.drop_last();
        let x = s.last();
        assert(s =~= rest.push(x));
        lemma_filters_commute(rest, p, q);
        rest.lemma_filter_push(x, p);
        rest.lemma_filter_push(x, q);
        rest.filter(p).lemma_filter_push(x, q);
        rest.filter(q).lemma_filter_push(x, p);
    }
}

/// A filter changes nothing in what a narrower filter has kept, and the
/// narrower filter keeps the same after the wider one.
pub proof fn lemma_filter_narrower<A>(s: Seq<A>, wide: spec_fn(A) -> bool, narrow: spec_fn(A) -> bool)
    requires
        forall|x: A| #[trigger] narrow(x) ==> wide(x),
    ensures
        s.filter(wide).filter(narrow) == s.filter(narrow),
    decreases s.len(),
{
    if s.len() == 0 {
        reveal(Seq::filter);
    } else {
        let rest = s.drop_last();
        let x = s.last();
        assert(s =~= rest.push(x));
        lemma_filter_narrower(rest, wide, narrow);
        rest.lemma_filter_push(x, wide);
        rest.lemma_filter_push(x, narrow);
        rest.filter(wide).lemma_filter_push(x, narrow);
    }
}

/// A filter that keeps the first item keeps it first.
pub proof fn lemma_filter_keeps_first<A>(s: Seq<A>, keep: spec_fn(A) -> bool)
    requires
        s.len() > 0,
        keep(s[0]),
    ensures
        s.filter(keep).len() > 0,
        s.filter(keep)[0] == s[0],
    decreases s.len(),
{
    let rest = s.drop_last();
    let x = s.last();
    assert(s =~= rest.push(x));
    rest.lemma_filter_push(x, keep);
    if rest.len() == 0 {
        reveal(Seq::filter);
        assert(rest.filter(keep) =~= Seq::<A>::empty());
    } else {
        lemma_filter_keeps_first(rest, keep);
    }
}

} // verus!
