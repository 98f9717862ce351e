//! The order in which one score is preferred to another.

use crate::feature::Feature;
use crate::score::{below_mean, is_below_mean, place, NakamotoScore};
use crate::wide::product_less;
use core::cmp::Ordering;
use vstd::prelude::*;
use vstd::std_specs::cmp::PartialOrdSpecImpl;

verus! {

/// The order of two numbers of which the larger is the better.
pub open spec fn by_larger(a: int, b: int) -> Ordering {
    if a < b {
        Ordering::Less
    } else if a > b {
        Ordering::Greater
    } else {
        Ordering::Equal
    }
}

/// The order of two numbers of which the smaller is the better.
pub open spec fn by_smaller(a: int, b: int) -> Ordering {
    by_larger(b, a)
}

/// The order of two minima, of which the larger is the better and a missing
/// one stands for infinity.
pub open spec fn by_minimum(a: Option<int>, b: Option<int>) -> Ordering {
    match (a, b) {
        (None, None) => Ordering::Equal,
        (None, Some(_)) => Ordering::Greater,
        (Some(_), None) => Ordering::Less,
        (Some(x), Some(y)) => by_larger(x, y),
    }
}

/// `first` where it decides, otherwise `then`.
pub open spec fn or_else(first: Ordering, then: Ordering) -> Ordering {
    if first == Ordering::Equal {
        then
    } else {
        first
    }
}

/// The same order seen from the other side.
pub open spec fn reversed(order: Ordering) -> Ordering {
    match order {
        Ordering::Less => Ordering::Greater,
        Ordering::Equal => Ordering::Equal,
        Ordering::Greater => Ordering::Less,
    }
}

impl NakamotoScore {
    /// The order by the features on which a side lies below a mean of
    /// `sum / 6`, walked from feature `from` on: the first such feature on
    /// which the coefficients differ decides, for the larger one.
    pub open spec fn dominance(self, other: NakamotoScore, sum: int, from: int) -> Ordering
        decreases 6 - from,
    {
        if from < 0 || from >= 6 {
            Ordering::Equal
        } else {
            let mine = self.coefficient(Feature::all()[from]);
            let theirs = other.coefficient(Feature::all()[from]);
            if (below_mean(mine, sum) || below_mean(theirs, sum)) && mine != theirs {
                by_larger(mine, theirs)
            } else {
                self.dominance(other, sum, from + 1)
            }
        }
    }

    /// The order of two scores where coefficients count as weak below a mean
    /// of `sum / 6`. The first of these that differs decides:
    /// the minimum, larger is better; the number of weak coefficients, fewer
    /// is better; the weak coefficients feature by feature, larger is better;
    /// the nodes held by the coalitions of the worst features, fewer is
    /// better; the mean of the logarithms, larger is better; the mean,
    /// larger is better.
    pub open spec fn order_at(self, other: NakamotoScore, sum: int) -> Ordering {
        or_else(
            by_minimum(self.minimum(), other.minimum()),
            or_else(
                by_smaller(self.count_below(sum), other.count_below(sum)),
                or_else(
                    self.dominance(other, sum, 0),
                    or_else(
                        by_smaller(
                            self.critical_control_power(),
                            other.critical_control_power(),
                        ),
                        or_else(
                            by_larger(self.product(), other.product()),
                            by_larger(self.sum(), other.sum()),
                        ),
                    ),
                ),
            ),
        )
    }

    /// The order of two scores: `Greater` where `self` is preferred. Weak is
    /// what lies below the mean of `self`, for both sides. Equal scores
    /// compare as equal; scores that compare as equal may still differ in
    /// coefficients that are weak on neither side.
    pub open spec fn order(self, other: NakamotoScore) -> Ordering {
        self.order_at(other, self.sum())
    }

    /// Whether `self` is strictly preferred to `other`.
    pub open spec fn beats(self, other: NakamotoScore) -> bool {
        self.order(other) == Ordering::Greater
    }

    /// Whether neither score is preferred to the other, as `self` sees it.
    pub open spec fn ties(self, other: NakamotoScore) -> bool {
        self.order(other) == Ordering::Equal
    }

    /// Whether `other` is strictly preferred to `self`, as `self` sees it.
    pub open spec fn is_worse_than(self, other: NakamotoScore) -> bool {
        self.order(other) == Ordering::Less
    }

    /// A score is neither better nor worse than itself.
    pub proof fn lemma_order_of_equal(a: NakamotoScore)
        ensures
            a.ties(a),
            !a.beats(a),
            !a.is_worse_than(a),
    {
        NakamotoScore::lemma_order_is_total(a, a);
    }

    /// A comparison has exactly one of three outcomes, and a score is
    /// neither better nor worse than an equal one.
    pub proof fn lemma_order_is_total(a: NakamotoScore, b: NakamotoScore)
        ensures
            a.order(b) == Ordering::Less || a.order(b) == Ordering::Equal || a.order(b)
                == Ordering::Greater,
            !(a.order(b) == Ordering::Less && a.order(b) == Ordering::Equal),
            !(a.order(b) == Ordering::Less && a.order(b) == Ordering::Greater),
            !(a.order(b) == Ordering::Equal && a.order(b) == Ordering::Greater),
            a == b ==> a.order(b) == Ordering::Equal,
    {
        if a == b {
            NakamotoScore::lemma_dominance_of_equal(a, a.sum(), 0);
        }
    }

    proof fn lemma_dominance_of_equal(a: NakamotoScore, sum: int, from: int)
        ensures
            a.dominance(a, sum, from) == Ordering::Equal,
        decreases 6 - from,
    {
        if 0 <= from < 6 {
            NakamotoScore::lemma_dominance_of_equal(a, sum, from + 1);
        }
    }

    proof fn lemma_dominance_reverses(a: NakamotoScore, b: NakamotoScore, sum: int, from: int)
        ensures
            b.dominance(a, sum, from) == reversed(a.dominance(b, sum, from)),
        decreases 6 - from,
    {
        if 0 <= from < 6 {
            NakamotoScore::lemma_dominance_reverses(a, b, sum, from + 1);
        }
    }

    /// With one mean for both directions, the order is antisymmetric: what
    /// one side sees as better the other sees as worse.
    pub proof fn lemma_order_at_reverses(a: NakamotoScore, b: NakamotoScore, sum: int)
        ensures
            b.order_at(a, sum) == reversed(a.order_at(b, sum)),
    {
        NakamotoScore::lemma_dominance_reverses(a, b, sum, 0);
    }

    /// The order is antisymmetric wherever the two means lead to the same
    /// verdict on the pair; in particular where the two scores have the same
    /// mean. Elsewhere each side may see itself as the better one.
    pub proof fn lemma_order_reverses(a: NakamotoScore, b: NakamotoScore)
        requires
            a.order_at(b, a.sum()) == a.order_at(b, b.sum()),
        ensures
            b.order(a) == reversed(a.order(b)),
            a.order(b) == Ordering::Less <==> b.order(a) == Ordering::Greater,
            a.order(b) == Ordering::Greater <==> b.order(a) == Ordering::Less,
            a.order(b) == Ordering::Equal <==> b.order(a) == Ordering::Equal,
    {
        NakamotoScore::lemma_order_at_reverses(a, b, b.sum());
    }

    /// The order of two scores: `Greater` where `self` is preferred.
    #[verifier::loop_isolation(false)]
    pub fn cmp(&self, other: &Self) -> (order: Ordering)
        ensures
            order == self.order(*other),
    {
        match (self.score_min(), other.score_min()) {
            (None, None) => {},
            (None, Some(_)) => {
                return Ordering::Greater;
            },
            (Some(_), None) => {
                return Ordering::Less;
            },
            (Some(mine), Some(theirs)) => {
                if mine < theirs {
                    return Ordering::Less;
                }
                if mine > theirs {
                    return Ordering::Greater;
                }
            },
        }
        let sum = self.coefficient_sum();
        let weak_here = self.count_below_mean(sum);
        let weak_there = other.count_below_mean(sum);
        if weak_here > weak_there {
            return Ordering::Less;
        }
        if weak_here < weak_there {
            return Ordering::Greater;
        }
        let all = Feature::variants();
        let mut i: usize = 0;
        while i < all.len()
            invariant
                i <= all.len(),
                all@ == Feature::all(),
                sum == self.sum(),
                self.dominance(*other, self.sum(), 0) == self.dominance(*other, self.sum(), place(i)),
            decreases all.len() - i,
        {
            let feature = all[i];
            assert(Feature::all()[place(i)] == feature);
            let mine = self.score_feature(&feature).unwrap();
            let theirs = other.score_feature(&feature).unwrap();
            if is_below_mean(mine, sum) || is_below_mean(theirs, sum) {
                if mine < theirs {
                    return Ordering::Less;
                }
                if mine > theirs {
                    return Ordering::Greater;
                }
            }
            i += 1;
        }
        let power_here = self.control_power_critical_features().unwrap();
        let power_there = other.control_power_critical_features().unwrap();
        if power_here > power_there {
            return Ordering::Less;
        }
        if power_here < power_there {
            return Ordering::Greater;
        }
        let factors_here = self.mean_factors();
        let factors_there = other.mean_factors();
        if product_less(factors_here.as_slice(), factors_there.as_slice()) {
            return Ordering::Less;
        }
        if product_less(factors_there.as_slice(), factors_here.as_slice()) {
            return Ordering::Greater;
        }
        let sum_there = other.coefficient_sum();
        if sum < sum_there {
            return Ordering::Less;
        }
        if sum > sum_there {
            return Ordering::Greater;
        }
        Ordering::Equal
    }

    /// Whether `self` is strictly preferred to `other`.
    pub fn is_better_than(&self, other: &Self) -> (better: bool)
        ensures
            better == self.beats(*other),
    {
        match self.cmp(other) {
            Ordering::Greater => true,
            _ => false,
        }
    }
}

impl NakamotoScore {
    /// Whether neither score is preferred to the other, as `self` sees it.
    pub fn is_tied_with(&self, other: &Self) -> (tied: bool)
        ensures
            tied == self.ties(*other),
    {
        match self.cmp(other) {
            Ordering::Equal => true,
            _ => false,
        }
    }
}

impl PartialOrd for NakamotoScore {
    /// The order of two scores; it is never `None`.
    fn partial_cmp(&self, other: &Self) -> (order: Option<Ordering>) {
        Some(self.cmp(other))
    }
}

impl PartialOrdSpecImpl for NakamotoScore {
    open spec fn obeys_partial_cmp_spec() -> bool {
        true
    }

    open spec fn partial_cmp_spec(&self, other: &Self) -> Option<Ordering> {
        Some(self.order(*other))
    }
}

} // verus!
