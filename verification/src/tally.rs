//! From the values of the nodes for one feature to the node counts of its
//! actors.

use crate::kernel::{
    largest_first, lemma_largest_first, lemma_largest_first_is, sort_largest_first, total,
};
use crate::permutation::{
    lemma_filter_keeps_first, lemma_filter_narrower, lemma_filter_same_items,
    lemma_filters_commute, lemma_peel, lemma_same_length, same_items,
};
use counter::Counter;
use vstd::multiset::group_multiset_axioms;
use vstd::prelude::*;
use vstd::seq_lib::{group_to_multiset_ensures, lemma_multiset_commutative};

verus! {

/// The test for being the value `v`.
pub open spec fn is_value(v: Seq<char>) -> spec_fn(Seq<char>) -> bool {
    |x: Seq<char>| x == v
}

/// The test for being another value than `v`.
pub open spec fn is_other(v: Seq<char>) -> spec_fn(Seq<char>) -> bool {
    |x: Seq<char>| x != v
}

/// How often `v` occurs among `values`.
pub open spec fn occurrences(values: Seq<Seq<char>>, v: Seq<char>) -> nat {
    values.filter(is_value(v)).len()
}

/// The `values` that are not `v`, in their order.
pub open spec fn without(values: Seq<Seq<char>>, v: Seq<char>) -> Seq<Seq<char>> {
    values.filter(is_other(v))
}

/// Every value is `v` or another one.
pub proof fn lemma_occurrences_and_others(values: Seq<Seq<char>>, v: Seq<char>)
    ensures
        occurrences(values, v) + without(values, v).len() == values.len(),
    decreases values.len(),
{
    reveal(Seq::filter);
    if values.len() > 0 {
        lemma_occurrences_and_others(values.drop_last(), v);
    }
}

/// A value that occurs is counted.
pub proof fn lemma_occurs(values: Seq<Seq<char>>, i: int)
    requires
        0 <= i < values.len(),
    ensures
        occurrences(values, values[i]) >= 1,
        without(values, values[i]).len() < values.len(),
{
    let v = values[i];
    assert(is_value(v)(values[i]));
    values.lemma_filter_contains(is_value(v), i);
    lemma_occurrences_and_others(values, v);
}

/// For each distinct value, in the order of first appearance, the number of
/// times it occurs.
pub open spec fn group_sizes(values: Seq<Seq<char>>) -> Seq<usize>
    decreases values.len(),
{
    if values.len() == 0 {
        Seq::empty()
    } else {
        proof {
            lemma_occurs(values, 0);
        }
        seq![occurrences(values, values[0]) as usize] + group_sizes(without(values, values[0]))
    }
}

/// The values of a column that are known, in their order.
pub open spec fn known(column: Seq<Option<Seq<char>>>) -> Seq<Seq<char>>
    decreases column.len(),
{
    if column.len() == 0 {
        Seq::empty()
    } else {
        match column.last() {
            Some(v) => known(column.drop_last()).push(v),
            None => known(column.drop_last()),
        }
    }
}

/// The number of entries of a column without a value.
pub open spec fn unknown(column: Seq<Option<Seq<char>>>) -> nat
    decreases column.len(),
{
    if column.len() == 0 {
        0
    } else {
        match column.last() {
            Some(_) => unknown(column.drop_last()),
            None => unknown(column.drop_last()) + 1,
        }
    }
}

/// One actor with one node, `n` times.
pub open spec fn singles(n: nat) -> Seq<usize> {
    Seq::new(n, |i: int| 1usize)
}

/// The node counts of the actors of one column: one actor for each distinct
/// known value, with as many nodes as have that value, and one actor with a
/// single node for each entry without a value.
pub open spec fn actor_counts(column: Seq<Option<Seq<char>>>) -> Seq<usize> {
    group_sizes(known(column)) + singles(unknown(column))
}

/// The total of two sequences, one after the other.
pub proof fn lemma_total_add(a: Seq<usize>, b: Seq<usize>)
    ensures
        total(a + b) == total(a) + total(b),
    decreases b.len(),
{
    if b.len() == 0 {
        assert(a + b =~= a);
    } else {
        assert((a + b).drop_last() =~= a + b.drop_last());
        lemma_total_add(a, b.drop_last());
    }
}

/// The groups hold each value once.
pub proof fn lemma_total_group_sizes(values: Seq<Seq<char>>)
    requires
        values.len() <= usize::MAX,
    ensures
        total(group_sizes(values)) == values.len(),
    decreases values.len(),
{
    if values.len() > 0 {
        let v = values[0];
        lemma_occurs(values, 0);
        lemma_occurrences_and_others(values, v);
        lemma_total_group_sizes(without(values, v));
        let head = seq![occurrences(values, v) as usize];
        lemma_total_add(head, group_sizes(without(values, v)));
        assert(head.drop_last() =~= Seq::<usize>::empty());
        assert(total(head.drop_last()) == 0);
        assert(head.last() == occurrences(values, v));
        assert(total(head) == occurrences(values, v));
    }
}

pub proof fn lemma_total_singles(n: nat)
    ensures
        total(singles(n)) == n,
    decreases n,
{
    if n > 0 {
        assert(singles(n).drop_last() =~= singles((n - 1) as nat));
        lemma_total_singles((n - 1) as nat);
    }
}

/// A column has as many known and unknown entries as it has entries.
pub proof fn lemma_known_and_unknown(column: Seq<Option<Seq<char>>>)
    ensures
        known(column).len() + unknown(column) == column.len(),
    decreases column.len(),
{
    if column.len() > 0 {
        lemma_known_and_unknown(column.drop_last());
    }
}

/// The actors of a column hold each of its nodes once.
pub proof fn lemma_total_actor_counts(column: Seq<Option<Seq<char>>>)
    requires
        column.len() <= usize::MAX,
    ensures
        total(actor_counts(column)) == column.len(),
{
    lemma_known_and_unknown(column);
    lemma_total_group_sizes(known(column));
    lemma_total_singles(unknown(column));
    lemma_total_add(group_sizes(known(column)), singles(unknown(column)));
}

/// Whichever value is taken out first, the groups are the same: the group of
/// `w` followed by the groups of the other values holds the same sizes as the
/// groups in the order of first appearance.
pub proof fn lemma_group_sizes_from(values: Seq<Seq<char>>, w: Seq<char>)
    requires
        values.contains(w),
    ensures
        same_items(
            seq![occurrences(values, w) as usize] + group_sizes(without(values, w)),
            group_sizes(values),
        ),
    decreases values.len(),
{
    broadcast use group_to_multiset_ensures;
    broadcast use group_multiset_axioms;

    let v = values[0];
    if v != w {
        let rest = without(values, v);
        let others = without(values, w);
        let at = choose|i: int| 0 <= i < values.len() && values[i] == w;
        lemma_occurs(values, 0);
        assert(rest.contains(w)) by {
            assert(is_other(v)(values[at]));
            values.lemma_filter_contains(is_other(v), at);
        }
        lemma_group_sizes_from(rest, w);
        // The group of `w` is as large among the rest as among all.
        assert(occurrences(rest, w) == occurrences(values, w)) by {
            assert forall|x: Seq<char>| #[trigger] is_value(w)(x) implies is_other(v)(x) by {}
            lemma_filter_narrower(values, is_other(v), is_value(w));
        }
        // The others begin with `v`, whose group is as large as among all.
        assert(is_other(w)(values[0]));
        lemma_filter_keeps_first(values, is_other(w));
        assert(others[0] == v);
        assert(occurrences(others, v) == occurrences(values, v)) by {
            assert forall|x: Seq<char>| #[trigger] is_value(v)(x) implies is_other(w)(x) by {}
            lemma_filter_narrower(values, is_other(w), is_value(v));
        }
        lemma_filters_commute(values, is_other(v), is_other(w));
        let core = group_sizes(without(rest, w));
        assert(without(others, v) == without(rest, w));
        let cv = occurrences(values, v) as usize;
        let cw = occurrences(values, w) as usize;
        assert(group_sizes(values) == seq![cv] + group_sizes(rest));
        assert(group_sizes(others) == seq![cv] + core);
        lemma_multiset_commutative(seq![cv], group_sizes(rest));
        lemma_multiset_commutative(seq![cw], core);
        lemma_multiset_commutative(seq![cv], core);
        lemma_multiset_commutative(seq![cw], seq![cv] + core);
        assert((seq![cw] + (seq![cv] + core)).to_multiset() =~= group_sizes(values).to_multiset());
    }
}

/// The sizes of the groups do not depend on the order of the values.
pub proof fn lemma_group_sizes_same_items(a: Seq<Seq<char>>, b: Seq<Seq<char>>)
    requires
        same_items(a, b),
    ensures
        same_items(group_sizes(a), group_sizes(b)),
    decreases a.len(),
{
    broadcast use group_to_multiset_ensures;
    broadcast use group_multiset_axioms;

    lemma_same_length(a, b);
    if a.len() > 0 {
        let v = a[0];
        assert(a.contains(v));
        assert(a.to_multiset().contains(v));
        assert(b.contains(v));
        lemma_occurs(a, 0);
        lemma_filter_same_items(a, b, is_other(v));
        lemma_filter_same_items(a, b, is_value(v));
        lemma_group_sizes_same_items(without(a, v), without(b, v));
        lemma_group_sizes_from(b, v);
        let c = occurrences(a, v) as usize;
        lemma_multiset_commutative(seq![c], group_sizes(without(a, v)));
        lemma_multiset_commutative(seq![c], group_sizes(without(b, v)));
    } else {
        assert(a =~= b);
    }
}

/// What is known of a column with one more entry.
pub proof fn lemma_known_insert(column: Seq<Option<Seq<char>>>, at: int, x: Option<Seq<char>>)
    requires
        0 <= at <= column.len(),
    ensures
        known(column.insert(at, x)).to_multiset() == match x {
            Some(v) => known(column).to_multiset().insert(v),
            None => known(column).to_multiset(),
        },
        unknown(column.insert(at, x)) == unknown(column) + if x.is_none() {
            1nat
        } else {
            0nat
        },
    decreases column.len() - at,
{
    broadcast use group_to_multiset_ensures;
    broadcast use group_multiset_axioms;

    let longer = column.insert(at, x);
    if at == column.len() {
        assert(longer.drop_last() =~= column);
    } else {
        assert(longer.drop_last() =~= column.drop_last().insert(at, x));
        lemma_known_insert(column.drop_last(), at, x);
        let short = known(column.drop_last()).to_multiset();
        match (x, column.last()) {
            (Some(v), Some(l)) => {
                assert(short.insert(v).insert(l) =~= short.insert(l).insert(v));
            },
            _ => {},
        }
    }
}

/// What is known of a column does not depend on the order of its entries.
pub proof fn lemma_known_same_items(a: Seq<Option<Seq<char>>>, b: Seq<Option<Seq<char>>>)
    requires
        same_items(a, b),
    ensures
        same_items(known(a), known(b)),
        unknown(a) == unknown(b),
    decreases a.len(),
{
    lemma_same_length(a, b);
    if a.len() == 0 {
        assert(a =~= b);
    } else {
        let at = lemma_peel(a, b);
        lemma_known_same_items(a.drop_last(), b.remove(at));
        lemma_known_insert(a.drop_last(), a.len() - 1, a.last());
        assert(a.drop_last().insert(a.len() - 1, a.last()) =~= a);
        lemma_known_insert(b.remove(at), at, a.last());
    }
}

/// The node counts of the actors do not depend on the order of the nodes.
pub proof fn lemma_actor_counts_same_items(a: Seq<Option<Seq<char>>>, b: Seq<Option<Seq<char>>>)
    requires
        same_items(a, b),
    ensures
        same_items(actor_counts(a), actor_counts(b)),
{
    lemma_known_same_items(a, b);
    lemma_group_sizes_same_items(known(a), known(b));
    lemma_multiset_commutative(group_sizes(known(a)), singles(unknown(a)));
    lemma_multiset_commutative(group_sizes(known(b)), singles(unknown(b)));
}

/// What a column of values holds as mathematical values.
pub open spec fn column_view(column: Seq<Option<String>>) -> Seq<Option<Seq<char>>> {
    Seq::new(column.len(), |i: int| crate::node_features::text_of(column[i]))
}

/// `counter::Counter::from_iter`, reached through `collect`, on the values,
/// and the counts of the map behind the counter, reached through
/// `HashMap::iter`. The counter holds each distinct string once and counts
/// how often it came; the map is walked in an order that one run does not
/// share with the next. So the result holds the sizes of the groups of equal
/// strings, each once, in some order.
#[verifier::external_body]
fn count_each(values: &Vec<String>) -> (counts: Vec<usize>)
    ensures
        counts@.to_multiset() == group_sizes(values.deep_view()).to_multiset(),
{
    values.iter().collect::<Counter<_>>().iter().map(|x| *x.1).collect()
}

/// The node counts of the actors of one column, largest first.
pub fn actor_counts_of(column: &Vec<Option<String>>) -> (counts: Vec<usize>)
    ensures
        counts@ == largest_first(actor_counts(column_view(column@))),
{
    let ghost whole = column_view(column@);
    let mut values: Vec<String> = Vec::new();
    let mut missing: usize = 0;
    let mut i: usize = 0;
    assert(whole.take(0) =~= Seq::empty());
    assert(values.deep_view() =~= known(whole.take(0)));
    while i < column.len()
        invariant
            i <= column.len(),
            whole == column_view(column@),
            values.deep_view() == known(whole.take(i as int)),
            missing == unknown(whole.take(i as int)),
            missing <= i,
        decreases column.len() - i,
    {
        proof {
            assert(whole.take(i + 1).drop_last() =~= whole.take(i as int));
            assert(whole.take(i + 1).last() == crate::node_features::text_of(column@[i as int]));
        }
        let ghost before = values.deep_view();
        match &column[i] {
            Some(value) => {
                values.push(value.clone());
                assert(values.deep_view() =~= before.push(value@));
            },
            None => {
                missing += 1;
            },
        }
        i += 1;
    }
    assert(whole.take(column@.len() as int) =~= whole);
    let mut counts = count_each(&values);
    let ghost grouped = counts@;
    let mut j: usize = 0;
    assert(singles(0) =~= Seq::empty());
    assert(counts@ =~= grouped + singles(0));
    while j < missing
        invariant
            j <= missing,
            counts@ == grouped + singles(j as nat),
        decreases missing - j,
    {
        counts.push(1);
        j += 1;
        assert(counts@ =~= grouped + singles(j as nat));
    }
    let sorted = sort_largest_first(counts.as_slice());
    proof {
        lemma_multiset_commutative(grouped, singles(missing as nat));
        lemma_multiset_commutative(group_sizes(known(whole)), singles(missing as nat));
        lemma_largest_first(counts@);
        lemma_largest_first_is(actor_counts(whole), sorted@);
    }
    sorted
}

} // verus!
