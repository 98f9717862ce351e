//! The Nakamoto kernel: from the node counts of the actors of one feature to
//! the smallest coalition of the largest actors that holds more than a third
//! of the nodes.

use vstd::prelude::*;
use vstd::relations::{sorted_by, total_ordering};
use vstd::seq_lib::{group_to_multiset_ensures, lemma_sorted_unique};

verus! {

/// The relation by which actors are walked: more nodes first.
pub open spec fn more_first() -> spec_fn(usize, usize) -> bool {
    |a: usize, b: usize| a >= b
}

/// The number of nodes that the actors hold together.
pub open spec fn total(counts: Seq<usize>) -> int
    decreases counts.len(),
{
    if counts.len() == 0 {
        0
    } else {
        total(counts.drop_last()) + counts.last()
    }
}

/// The counts with the largest actor first.
pub open spec fn largest_first(counts: Seq<usize>) -> Seq<usize> {
    counts.sort_by(more_first())
}

/// The number of nodes that the `k` largest actors hold together.
pub open spec fn top_sum(counts: Seq<usize>, k: int) -> int {
    total(largest_first(counts).take(k))
}

/// The number of nodes that may be faulty without harm: a third of all nodes,
/// rounded down.
pub open spec fn tolerance(counts: Seq<usize>) -> int {
    total(counts) / 3
}

/// Whether the `k` largest actors together hold more than the tolerance.
pub open spec fn breaks(counts: Seq<usize>, k: int) -> bool {
    top_sum(counts, k) > tolerance(counts)
}

/// The least `k` with `from <= k` such that the `k` largest actors break the
/// tolerance, or the number of actors where none below it does.
pub open spec fn least_breaking(counts: Seq<usize>, from: int) -> int
    decreases counts.len() - from,
{
    if from >= counts.len() {
        counts.len() as int
    } else if breaks(counts, from) {
        from
    } else {
        least_breaking(counts, from + 1)
    }
}

/// The Nakamoto coefficient: the least number of the largest actors that
/// together hold more than a third of the nodes; 0 where there is no node.
pub open spec fn coefficient(counts: Seq<usize>) -> int {
    if total(counts) == 0 {
        0
    } else {
        least_breaking(counts, 1)
    }
}

/// The number of nodes that this smallest coalition holds.
pub open spec fn controlled(counts: Seq<usize>) -> int {
    top_sum(counts, coefficient(counts))
}

/// `n` as far as a `usize` can hold it.
pub open spec fn saturated(n: int) -> int {
    if n > usize::MAX {
        usize::MAX as int
    } else {
        n
    }
}

pub proof fn lemma_more_first_is_total()
    ensures
        total_ordering(more_first()),
{
}

/// The total of a sequence with one more count put in anywhere.
pub proof fn lemma_total_insert(counts: Seq<usize>, i: int, x: usize)
    requires
        0 <= i <= counts.len(),
    ensures
        total(counts.insert(i, x)) == total(counts) + x,
    decreases counts.len() - i,
{
    let longer = counts.insert(i, x);
    if i == counts.len() {
        assert(longer.drop_last() =~= counts);
    } else {
        assert(longer.drop_last() =~= counts.drop_last().insert(i, x));
        lemma_total_insert(counts.drop_last(), i, x);
    }
}

/// The total of a sequence with one count taken out.
pub proof fn lemma_total_remove(counts: Seq<usize>, i: int)
    requires
        0 <= i < counts.len(),
    ensures
        total(counts.remove(i)) == total(counts) - counts[i],
{
    assert(counts.remove(i).insert(i, counts[i]) =~= counts);
    lemma_total_insert(counts.remove(i), i, counts[i]);
}

/// The total does not depend on the order of the counts.
pub proof fn lemma_total_of_permutation(a: Seq<usize>, b: Seq<usize>)
    requires
        a.to_multiset() == b.to_multiset(),
    ensures
        total(a) == total(b),
    decreases a.len(),
{
    broadcast use group_to_multiset_ensures;

    assert(a.len() == b.len()) by {
        assert(a.to_multiset().len() == a.len());
        assert(b.to_multiset().len() == b.len());
    }
    if a.len() > 0 {
        let x = a.last();
        assert(a.to_multiset().contains(x)) by {
            assert(a.contains(x));
        }
        assert(b.contains(x));
        let j = choose|j: int| 0 <= j < b.len() && b[j] == x;
        let shorter = a.drop_last();
        assert(shorter =~= a.remove(a.len() - 1));
        assert(shorter.to_multiset() == a.to_multiset().remove(x));
        assert(b.remove(j).to_multiset() == b.to_multiset().remove(x));
        lemma_total_of_permutation(shorter, b.remove(j));
        lemma_total_remove(b, j);
    }
}

/// The total of a prefix grows with the prefix, by the count that comes in.
pub proof fn lemma_total_take_step(counts: Seq<usize>, k: int)
    requires
        0 <= k < counts.len(),
    ensures
        total(counts.take(k + 1)) == total(counts.take(k)) + counts[k],
{
    assert(counts.take(k + 1).drop_last() =~= counts.take(k));
}

/// Prefix totals never shrink, and the whole is the last of them.
pub proof fn lemma_total_take_bounds(counts: Seq<usize>, j: int, k: int)
    requires
        0 <= j <= k <= counts.len(),
    ensures
        0 <= total(counts.take(j)) <= total(counts.take(k)) <= total(counts),
    decreases counts.len() - j,
{
    if j == counts.len() {
        assert(counts.take(j) =~= counts);
        assert(counts.take(k) =~= counts);
        lemma_total_nonnegative(counts);
    } else if j == k {
        lemma_total_take_step(counts, j);
        lemma_total_take_bounds(counts, j + 1, j + 1);
        lemma_total_nonnegative(counts.take(j));
    } else {
        lemma_total_take_step(counts, j);
        lemma_total_take_bounds(counts, j + 1, k);
        lemma_total_nonnegative(counts.take(j));
    }
}

pub proof fn lemma_total_nonnegative(counts: Seq<usize>)
    ensures
        total(counts) >= 0,
    decreases counts.len(),
{
    if counts.len() > 0 {
        lemma_total_nonnegative(counts.drop_last());
    }
}

/// What sorting keeps: the counts themselves, hence their number and total.
pub proof fn lemma_largest_first(counts: Seq<usize>)
    ensures
        largest_first(counts).to_multiset() == counts.to_multiset(),
        largest_first(counts).len() == counts.len(),
        sorted_by(largest_first(counts), more_first()),
        total(largest_first(counts)) == total(counts),
{
    broadcast use group_to_multiset_ensures;

    lemma_more_first_is_total();
    counts.lemma_sort_by_ensures(more_first());
    assert(largest_first(counts).to_multiset().len() == largest_first(counts).len());
    assert(counts.to_multiset().len() == counts.len());
    lemma_total_of_permutation(largest_first(counts), counts);
}

/// A sequence that is sorted and holds the same counts is the sorted one.
pub proof fn lemma_largest_first_is(counts: Seq<usize>, sorted: Seq<usize>)
    requires
        sorted.to_multiset() == counts.to_multiset(),
        sorted_by(sorted, more_first()),
    ensures
        sorted == largest_first(counts),
{
    lemma_largest_first(counts);
    lemma_more_first_is_total();
    lemma_sorted_unique(sorted, largest_first(counts), more_first());
}

/// The search for the least breaking coalition: where it ends, and that no
/// smaller coalition from `from` on breaks the tolerance.
pub proof fn lemma_least_breaking(counts: Seq<usize>, from: int)
    requires
        1 <= from <= counts.len(),
        total(counts) > 0,
    ensures
        from <= least_breaking(counts, from) <= counts.len(),
        breaks(counts, least_breaking(counts, from)),
        forall|k: int| from <= k < least_breaking(counts, from) ==> !breaks(counts, k),
    decreases counts.len() - from,
{
    if from >= counts.len() {
        lemma_largest_first(counts);
        assert(largest_first(counts).take(counts.len() as int) =~= largest_first(counts));
    } else if breaks(counts, from) {
    } else {
        lemma_least_breaking(counts, from + 1);
    }
}

/// Bounds of the kernel. With at least one node, the coefficient lies between
/// 1 and the number of actors; the coalition holds at least one node for each
/// of its members and more than a third of all nodes, and no smaller coalition
/// of the largest actors does.
pub proof fn lemma_kernel_bounds(counts: Seq<usize>)
    requires
        total(counts) > 0,
    ensures
        1 <= coefficient(counts) <= counts.len(),
        controlled(counts) >= coefficient(counts),
        controlled(counts) > total(counts) / 3,
        controlled(counts) <= total(counts),
        forall|k: int| 1 <= k < coefficient(counts) ==> !breaks(counts, k),
{
    assert(counts.len() >= 1);
    lemma_least_breaking(counts, 1);
    let c = coefficient(counts);
    let sorted = largest_first(counts);
    lemma_largest_first(counts);
    lemma_total_take_bounds(sorted, c, c);
    // The last member of the coalition holds a node, and so do all before it.
    lemma_total_take_step(sorted, c - 1);
    if c > 1 {
        assert(!breaks(counts, c - 1));
    } else {
        assert(sorted.take(0) =~= Seq::<usize>::empty());
    }
    assert(sorted[c - 1] >= 1);
    assert forall|i: int| 0 <= i < c implies sorted[i] >= 1 by {
        if i < c - 1 {
            assert(more_first()(sorted[i], sorted[c - 1]));
        }
    }
    lemma_prefix_at_least_length(sorted, c);
}

/// A prefix whose counts are all positive holds at least as many nodes as it
/// has actors.
proof fn lemma_prefix_at_least_length(counts: Seq<usize>, k: int)
    requires
        0 <= k <= counts.len(),
        forall|i: int| 0 <= i < k ==> counts[i] >= 1,
    ensures
        total(counts.take(k)) >= k,
    decreases k,
{
    if k > 0 {
        lemma_prefix_at_least_length(counts, k - 1);
        lemma_total_take_step(counts, k - 1);
    } else {
        assert(counts.take(0) =~= Seq::<usize>::empty());
    }
}

/// The kernel does not depend on the order in which the actors are given.
pub proof fn lemma_kernel_of_permutation(a: Seq<usize>, b: Seq<usize>)
    requires
        a.to_multiset() == b.to_multiset(),
    ensures
        coefficient(a) == coefficient(b),
        controlled(a) == controlled(b),
{
    lemma_total_of_permutation(a, b);
    lemma_largest_first(a);
    lemma_largest_first(b);
    lemma_more_first_is_total();
    lemma_sorted_unique(largest_first(a), largest_first(b), more_first());
    assert(largest_first(a) == largest_first(b));
    broadcast use group_to_multiset_ensures;

    assert(a.len() == b.len()) by {
        assert(a.to_multiset().len() == a.len());
        assert(b.to_multiset().len() == b.len());
    }
    lemma_least_breaking_same(a, b, 1);
}

proof fn lemma_least_breaking_same(a: Seq<usize>, b: Seq<usize>, from: int)
    requires
        a.len() == b.len(),
        total(a) == total(b),
        largest_first(a) == largest_first(b),
    ensures
        least_breaking(a, from) == least_breaking(b, from),
    decreases a.len() - from,
{
    if from < a.len() && !breaks(a, from) {
        lemma_least_breaking_same(a, b, from + 1);
    }
}

/// The counts after one more node has come under actor `i`.
pub open spec fn with_node_added(counts: Seq<usize>, i: int) -> Seq<usize> {
    counts.update(i, (counts[i] + 1) as usize)
}

/// The total of a sequence in which one count was replaced.
pub proof fn lemma_total_update(counts: Seq<usize>, i: int, x: usize)
    requires
        0 <= i < counts.len(),
    ensures
        total(counts.update(i, x)) == total(counts) - counts[i] + x,
{
    assert(counts.update(i, x) =~= counts.remove(i).insert(i, x));
    lemma_total_remove(counts, i);
    lemma_total_insert(counts.remove(i), i, x);
}

/// The first place at which a sequence holds `x`.
proof fn lemma_first_occurrence(counts: Seq<usize>, x: usize) -> (at: int)
    requires
        counts.contains(x),
    ensures
        0 <= at < counts.len(),
        counts[at] == x,
        forall|j: int| 0 <= j < at ==> counts[j] != x,
    decreases counts.len(),
{
    if counts[0] == x {
        0
    } else {
        let j = choose|j: int| 0 <= j < counts.len() && counts[j] == x;
        assert(counts.drop_first()[j - 1] == x);
        let rest = lemma_first_occurrence(counts.drop_first(), x);
        assert forall|j: int| 0 <= j < rest + 1 implies counts[j] != x by {
            if j > 0 {
                assert(counts.drop_first()[j - 1] != x);
            }
        }
        rest + 1
    }
}

/// Any coalition of the largest actors that breaks the tolerance has at least
/// as many members as the coefficient.
pub proof fn lemma_coefficient_is_least(counts: Seq<usize>, k: int)
    requires
        1 <= k <= counts.len(),
        breaks(counts, k),
    ensures
        total(counts) > 0,
        coefficient(counts) <= k,
{
    lemma_largest_first(counts);
    lemma_total_take_bounds(largest_first(counts), k, k);
    lemma_least_breaking(counts, 1);
}

/// Adding a node to an actor does not raise the coefficient, provided that the
/// actor is as large as the smallest member of the breaking coalition, or that
/// the coalition still holds more than a third once the node is counted.
///
/// On every other input the coefficient grows: see
/// `lemma_adding_a_node_elsewhere`.
pub proof fn lemma_adding_a_node(counts: Seq<usize>, i: int)
    requires
        0 <= i < counts.len(),
        counts[i] < usize::MAX,
        total(counts) > 0,
        counts[i] >= largest_first(counts)[coefficient(counts) - 1] || controlled(counts) > (total(
            counts,
        ) + 1) / 3,
    ensures
        coefficient(with_node_added(counts, i)) <= coefficient(counts),
{
    broadcast use group_to_multiset_ensures;

    let x = counts[i];
    let more = (x + 1) as usize;
    let grown = with_node_added(counts, i);
    let sorted = largest_first(counts);
    let c = coefficient(counts);
    lemma_largest_first(counts);
    lemma_kernel_bounds(counts);
    assert(sorted.contains(x)) by {
        assert(counts.contains(x));
        assert(counts.to_multiset().contains(x));
    }
    let p = lemma_first_occurrence(sorted, x);
    let raised = sorted.update(p, more);
    assert(sorted_by(raised, more_first())) by {
        assert forall|j: int, k: int| 0 <= j < k < raised.len() implies more_first()(
            raised[j],
            raised[k],
        ) by {
            assert(more_first()(sorted[j], sorted[k]));
            if k == p {
                assert(sorted[j] != x);
            }
        }
    }
    lemma_largest_first_is(grown, raised);
    lemma_total_update(counts, i, more);
    if p < c {
        assert(raised.take(c) =~= sorted.take(c).update(p, more));
        lemma_total_update(sorted.take(c), p, more);
    } else {
        assert(raised.take(c) =~= sorted.take(c));
        assert(more_first()(sorted[c - 1], sorted[p]));
    }
    assert(breaks(grown, c));
    lemma_coefficient_is_least(grown, c);
}

/// Where a node goes to an actor smaller than every member of the breaking
/// coalition, and the coalition does not hold more than a third once the node
/// is counted, the coefficient grows.
pub proof fn lemma_adding_a_node_elsewhere(counts: Seq<usize>, i: int)
    requires
        0 <= i < counts.len(),
        counts[i] < usize::MAX,
        total(counts) > 0,
        counts[i] < largest_first(counts)[coefficient(counts) - 1],
        controlled(counts) <= (total(counts) + 1) / 3,
    ensures
        coefficient(with_node_added(counts, i)) > coefficient(counts),
{
    broadcast use group_to_multiset_ensures;

    let x = counts[i];
    let more = (x + 1) as usize;
    let grown = with_node_added(counts, i);
    let sorted = largest_first(counts);
    let c = coefficient(counts);
    lemma_largest_first(counts);
    lemma_kernel_bounds(counts);
    assert(sorted.contains(x)) by {
        assert(counts.contains(x));
        assert(counts.to_multiset().contains(x));
    }
    let p = lemma_first_occurrence(sorted, x);
    let raised = sorted.update(p, more);
    assert(p >= c) by {
        if p < c - 1 {
            assert(more_first()(sorted[p], sorted[c - 1]));
        }
    }
    assert(sorted_by(raised, more_first())) by {
        assert forall|j: int, k: int| 0 <= j < k < raised.len() implies more_first()(
            raised[j],
            raised[k],
        ) by {
            assert(more_first()(sorted[j], sorted[k]));
            if k == p {
                assert(sorted[j] != x);
            }
        }
    }
    lemma_largest_first_is(grown, raised);
    lemma_total_update(counts, i, more);
    assert forall|k: int| 1 <= k <= c implies !breaks(grown, k) by {
        assert(raised.take(k) =~= sorted.take(k));
        lemma_total_take_bounds(sorted, k, c);
    }
    lemma_least_breaking(grown, 1);
}

/// The counts of `values`, largest first.
pub fn sort_largest_first(values: &[usize]) -> (sorted: Vec<usize>)
    ensures
        sorted@ == largest_first(values@),
{
    let mut sorted: Vec<usize> = Vec::new();
    let mut i: usize = 0;
    assert(values@.take(0) =~= sorted@);
    while i < values.len()
        invariant
            i <= values.len(),
            sorted@.to_multiset() == values@.take(i as int).to_multiset(),
            sorted_by(sorted@, more_first()),
            sorted@.len() == i,
        decreases values.len() - i,
    {
        let x = values[i];
        let mut at: usize = 0;
        while at < sorted.len() && sorted[at] >= x
            invariant
                at <= sorted.len(),
                forall|j: int| 0 <= j < at ==> sorted[j] >= x,
            decreases sorted.len() - at,
        {
            at += 1;
        }
        let ghost before = sorted@;
        sorted.insert(at, x);
        proof {
            broadcast use group_to_multiset_ensures;

            assert(values@.take(i + 1) =~= values@.take(i as int).push(x));
            assert forall|j: int, k: int| 0 <= j < k < sorted@.len() implies more_first()(
                sorted@[j],
                sorted@[k],
            ) by {
                if k < at {
                    assert(more_first()(before[j], before[k]));
                } else if k == at {
                } else if j < at {
                    assert(more_first()(before[j], before[k - 1]));
                } else if j == at {
                    assert(more_first()(before[at as int], before[k - 1]) || k - 1 == at);
                } else {
                    assert(more_first()(before[j - 1], before[k - 1]));
                }
            }
        }
        i += 1;
    }
    proof {
        assert(values@.take(values@.len() as int) =~= values@);
        lemma_largest_first_is(values@, sorted@);
    }
    sorted
}

/// The number of nodes that the actors hold together.
fn sum_counts(values: &[usize]) -> (sum: u128)
    ensures
        sum == total(values@),
{
    let mut sum: u128 = 0;
    let mut i: usize = 0;
    while i < values.len()
        invariant
            i <= values.len(),
            sum == total(values@.take(i as int)),
            sum <= i * usize::MAX,
        decreases values.len() - i,
    {
        proof {
            lemma_total_take_step(values@, i as int);
            assert(i * usize::MAX + usize::MAX <= usize::MAX * usize::MAX) by (nonlinear_arith)
                requires
                    i < usize::MAX,
            ;
            assert(usize::MAX * usize::MAX < u128::MAX) by (nonlinear_arith)
                requires
                    usize::MAX <= u64::MAX,
            ;
            assert((i + 1) * usize::MAX == i * usize::MAX + usize::MAX) by (nonlinear_arith);
        }
        sum = sum + values[i] as u128;
        i += 1;
    }
    proof {
        assert(values@.take(values@.len() as int) =~= values@);
    }
    sum
}

/// The Nakamoto coefficient of one feature, and the number of nodes that the
/// coalition behind it holds.
///
/// `values` holds, for each actor, the number of nodes under its control. The
/// first number returned is how many of the largest actors it takes to hold
/// more than a third of all nodes, the second how many nodes they then hold,
/// as far as a `usize` can hold it. Without any node both are 0.
pub fn nakamoto_kernel(values: &[usize]) -> (result: (usize, usize))
    ensures
        result.0 == coefficient(values@),
        result.1 == saturated(controlled(values@)),
{
    let all = sum_counts(values);
    if all == 0 {
        proof {
            assert(largest_first(values@).take(0) =~= Seq::<usize>::empty());
        }
        return (0, 0);
    }
    let max_faulty = all / 3;
    let sorted = sort_largest_first(values);
    proof {
        lemma_largest_first(values@);
        lemma_least_breaking(values@, 1);
        assert(sorted@.take(0) =~= Seq::<usize>::empty());
    }
    let mut actors: usize = 0;
    let mut nodes: u128 = 0;
    while nodes <= max_faulty
        invariant
            sorted@ == largest_first(values@),
            sorted@.len() == values@.len(),
            total(values@) == all,
            all > 0,
            max_faulty == all / 3,
            actors <= sorted@.len(),
            nodes == total(sorted@.take(actors as int)),
            actors == 0 || least_breaking(values@, 1) == least_breaking(values@, actors as int),
            actors == 0 || actors <= least_breaking(values@, 1),
            1 <= least_breaking(values@, 1) <= values@.len(),
            breaks(values@, least_breaking(values@, 1)),
        decreases sorted@.len() - actors,
    {
        proof {
            if actors > 0 {
                assert(!breaks(values@, actors as int));
                assert(actors < least_breaking(values@, 1));
            }
            lemma_total_take_step(sorted@, actors as int);
            lemma_total_take_bounds(sorted@, actors + 1, actors + 1);
        }
        assert(actors < sorted.len());
        nodes = nodes + sorted[actors] as u128;
        actors += 1;
    }
    proof {
        assert(breaks(values@, actors as int));
    }
    let held: usize = if nodes > usize::MAX as u128 {
        usize::MAX
    } else {
        nodes as usize
    };
    (actors, held)
}

} // verus!
