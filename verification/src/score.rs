//! The Nakamoto score of a set of nodes: for each feature the coefficient and
//! the nodes that the breaking coalition holds, and what follows from them.

use crate::feature::Feature;
use crate::kernel::{
    coefficient, controlled, lemma_kernel_bounds, lemma_kernel_of_permutation, nakamoto_kernel,
    saturated, total,
};
use crate::node::{features_of, views, Node};
use crate::node_features::{FeatureValues, NodeFeatures};
use crate::permutation::{lemma_peel, lemma_same_length, same_items};
use crate::tally::{
    actor_counts, actor_counts_of, column_view, lemma_actor_counts_same_items,
    lemma_total_actor_counts,
};
use vstd::prelude::*;

verus! {

/// One number for each feature.
#[derive(Clone, Copy, Debug, PartialEq, Eq, Structural)]
pub struct PerFeature {
    pub node_provider: usize,
    pub data_center: usize,
    pub data_center_owner: usize,
    pub city: usize,
    pub country: usize,
    pub continent: usize,
}

impl PerFeature {
    /// The number for `feature`.
    pub open spec fn get(self, feature: Feature) -> usize {
        match feature {
            Feature::NodeProvider => self.node_provider,
            Feature::DataCenter => self.data_center,
            Feature::DataCenterOwner => self.data_center_owner,
            Feature::City => self.city,
            Feature::Country => self.country,
            Feature::Continent => self.continent,
        }
    }

    /// These numbers with the one for `feature` replaced.
    pub open spec fn with(self, feature: Feature, value: usize) -> PerFeature {
        match feature {
            Feature::NodeProvider => PerFeature { node_provider: value, ..self },
            Feature::DataCenter => PerFeature { data_center: value, ..self },
            Feature::DataCenterOwner => PerFeature { data_center_owner: value, ..self },
            Feature::City => PerFeature { city: value, ..self },
            Feature::Country => PerFeature { country: value, ..self },
            Feature::Continent => PerFeature { continent: value, ..self },
        }
    }

    /// Zero for every feature.
    pub fn zero() -> (zero: PerFeature)
        ensures
            forall|f: Feature| zero.get(f) == 0,
    {
        PerFeature {
            node_provider: 0,
            data_center: 0,
            data_center_owner: 0,
            city: 0,
            country: 0,
            continent: 0,
        }
    }

    /// The number for `feature`.
    pub fn at(&self, feature: &Feature) -> (value: usize)
        ensures
            value == self.get(*feature),
    {
        match feature {
            Feature::NodeProvider => self.node_provider,
            Feature::DataCenter => self.data_center,
            Feature::DataCenterOwner => self.data_center_owner,
            Feature::City => self.city,
            Feature::Country => self.country,
            Feature::Continent => self.continent,
        }
    }

    /// Replaces the number for `feature`.
    pub fn set(&mut self, feature: &Feature, value: usize)
        ensures
            *final(self) == old(self).with(*feature, value),
    {
        match feature {
            Feature::NodeProvider => {
                self.node_provider = value;
            },
            Feature::DataCenter => {
                self.data_center = value;
            },
            Feature::DataCenterOwner => {
                self.data_center_owner = value;
            },
            Feature::City => {
                self.city = value;
            },
            Feature::Country => {
                self.country = value;
            },
            Feature::Continent => {
                self.continent = value;
            },
        }
    }
}

/// A fraction of two whole numbers.
#[derive(Clone, Copy, Debug, PartialEq, Eq, Structural)]
pub struct Ratio {
    pub numerator: u128,
    pub denominator: u128,
}

/// A machine index as a mathematical integer.
pub open spec fn place(i: usize) -> int {
    i as int
}

/// The sum of `term` over all features.
pub open spec fn sum_features(term: spec_fn(Feature) -> int) -> int {
    term(Feature::NodeProvider) + term(Feature::DataCenter) + term(Feature::DataCenterOwner)
        + term(Feature::City) + term(Feature::Country) + term(Feature::Continent)
}

/// The sum of `term` over the first `n` features.
pub open spec fn sum_first(term: spec_fn(Feature) -> int, n: int) -> int
    decreases n,
{
    if n <= 0 {
        0
    } else {
        sum_first(term, n - 1) + term(Feature::all()[n - 1])
    }
}

pub proof fn lemma_sum_first_all(term: spec_fn(Feature) -> int)
    ensures
        sum_first(term, 6) == sum_features(term),
{
    reveal_with_fuel(sum_first, 7);
}

/// What the nodes hold for one feature, node by node.
pub open spec fn column(nodes: Seq<FeatureValues>, feature: Feature) -> Seq<Option<Seq<char>>> {
    Seq::new(nodes.len(), |i: int| nodes[i].get(feature))
}

/// The Nakamoto coefficient of `nodes` for `feature`.
pub open spec fn feature_coefficient(nodes: Seq<FeatureValues>, feature: Feature) -> int {
    coefficient(actor_counts(column(nodes, feature)))
}

/// The number of nodes that the breaking coalition of `feature` holds.
pub open spec fn feature_controlled(nodes: Seq<FeatureValues>, feature: Feature) -> int {
    controlled(actor_counts(column(nodes, feature)))
}

/// What a slice of node features holds as mathematical values.
pub open spec fn values_of(nodes: Seq<NodeFeatures>) -> Seq<FeatureValues> {
    Seq::new(nodes.len(), |i: int| nodes[i]@)
}

/// Whether `c`, one of six coefficients that add up to `sum`, lies strictly
/// below their mean.
pub open spec fn below_mean(c: int, sum: int) -> bool {
    6 * c < sum
}

/// The Nakamoto coefficients of a set of nodes, one for each feature, with the
/// number of nodes that each breaking coalition holds.
///
/// Two scores are equal when they agree in both for every feature. The score
/// of no node at all has every coefficient 0; any other score has every
/// coefficient at least 1.
#[derive(Clone, Copy, Debug, PartialEq, Eq, Structural)]
pub struct NakamotoScore {
    coefficients: PerFeature,
    controlled_nodes: PerFeature,
}

impl NakamotoScore {
    /// Either no feature has an actor, or every feature has one.
    #[verifier::type_invariant]
    pub open spec fn well_formed(self) -> bool {
        ||| forall|f: Feature| self.coefficient(f) == 0
        ||| forall|f: Feature| self.coefficient(f) >= 1
    }

    /// The coefficient for `feature`.
    pub closed spec fn coefficient(self, feature: Feature) -> int {
        self.coefficients.get(feature) as int
    }

    /// The number of nodes that the breaking coalition of `feature` holds.
    pub closed spec fn controlled(self, feature: Feature) -> int {
        self.controlled_nodes.get(feature) as int
    }

    /// Whether this is the score of no node at all.
    pub open spec fn is_empty(self) -> bool {
        forall|f: Feature| self.coefficient(f) == 0
    }

    /// Whether this is the score of `nodes`.
    pub open spec fn is_score_of(self, nodes: Seq<FeatureValues>) -> bool {
        forall|f: Feature|
            #![trigger self.coefficient(f)]
            #![trigger self.controlled(f)]
            self.coefficient(f) == feature_coefficient(nodes, f) && self.controlled(f)
                == feature_controlled(nodes, f)
    }

    /// The least of the six coefficients.
    pub open spec fn least(self) -> int {
        let a = self.coefficient(Feature::NodeProvider);
        let b = self.coefficient(Feature::DataCenter);
        let c = self.coefficient(Feature::DataCenterOwner);
        let d = self.coefficient(Feature::City);
        let e = self.coefficient(Feature::Country);
        let f = self.coefficient(Feature::Continent);
        vstd::math::min(a, vstd::math::min(b, vstd::math::min(c, vstd::math::min(d, vstd::math::min(e, f)))))
    }

    /// The worst coefficient; nothing, which stands for infinity, for the
    /// score of no node at all.
    pub open spec fn minimum(self) -> Option<int> {
        if self.is_empty() {
            None
        } else {
            Some(self.least())
        }
    }

    /// The sum of the six coefficients: six times their mean.
    pub open spec fn sum(self) -> int {
        sum_features(|f: Feature| self.coefficient(f))
    }

    /// The coefficients that take part in the means, in the order of the
    /// features. The score of no node at all has none: six times 1 stand for
    /// it, whose logarithms are 0.
    pub closed spec fn factors(self) -> Seq<usize> {
        if self.is_empty() {
            Seq::new(6, |i: int| 1usize)
        } else {
            Seq::new(6, |i: int| self.coefficients.get(Feature::all()[i]))
        }
    }

    /// The product of the six coefficients, and 1 for the score of no node at
    /// all: two to the power of six times the mean of their binary
    /// logarithms. The logarithm grows with its argument, so one mean is
    /// below another exactly when one product is below the other.
    pub open spec fn product(self) -> int {
        crate::wide::product(self.factors())
    }

    /// The number of coefficients that lie strictly below a mean of `sum / 6`.
    pub open spec fn count_below(self, sum: int) -> int {
        sum_features(
            |f: Feature|
                if below_mean(self.coefficient(f), sum) {
                    1int
                } else {
                    0int
                },
        )
    }

    /// The number of nodes that the breaking coalitions of the worst features
    /// hold together: the sum of `controlled` over the features whose
    /// coefficient is the minimum.
    pub open spec fn critical_control_power(self) -> int {
        sum_features(
            |f: Feature|
                if self.minimum() == Some(self.coefficient(f)) {
                    self.controlled(f)
                } else {
                    0int
                },
        )
    }

    /// The score of `nodes`.
    pub closed spec fn of(nodes: Seq<FeatureValues>) -> NakamotoScore {
        NakamotoScore {
            coefficients: PerFeature {
                node_provider: feature_coefficient(nodes, Feature::NodeProvider) as usize,
                data_center: feature_coefficient(nodes, Feature::DataCenter) as usize,
                data_center_owner: feature_coefficient(nodes, Feature::DataCenterOwner) as usize,
                city: feature_coefficient(nodes, Feature::City) as usize,
                country: feature_coefficient(nodes, Feature::Country) as usize,
                continent: feature_coefficient(nodes, Feature::Continent) as usize,
            },
            controlled_nodes: PerFeature {
                node_provider: feature_controlled(nodes, Feature::NodeProvider) as usize,
                data_center: feature_controlled(nodes, Feature::DataCenter) as usize,
                data_center_owner: feature_controlled(nodes, Feature::DataCenterOwner) as usize,
                city: feature_controlled(nodes, Feature::City) as usize,
                country: feature_controlled(nodes, Feature::Country) as usize,
                continent: feature_controlled(nodes, Feature::Continent) as usize,
            },
        }
    }

    /// What the score of `nodes` holds: for every feature the coefficient and
    /// the controlled nodes of `nodes`, within the bounds of the kernel.
    pub proof fn lemma_of(nodes: Seq<FeatureValues>)
        requires
            nodes.len() <= usize::MAX,
        ensures
            NakamotoScore::of(nodes).is_score_of(nodes),
            NakamotoScore::of(nodes).is_empty() <==> nodes.len() == 0,
            NakamotoScore::of(nodes).well_formed(),
            forall|f: Feature|
                #![trigger NakamotoScore::of(nodes).coefficient(f)]
                #![trigger NakamotoScore::of(nodes).controlled(f)]
                0 <= NakamotoScore::of(nodes).coefficient(f) <= NakamotoScore::of(nodes).controlled(f)
                    <= nodes.len(),
            forall|f: Feature|
                #![trigger NakamotoScore::of(nodes).coefficient(f)]
                nodes.len() > 0 ==> NakamotoScore::of(nodes).coefficient(f) >= 1,
            forall|f: Feature|
                #![trigger NakamotoScore::of(nodes).coefficient(f)]
                NakamotoScore::of(nodes).coefficient(f) <= actor_counts(column(nodes, f)).len(),
    {
        let score = NakamotoScore::of(nodes);
        assert forall|f: Feature|
            #![trigger score.coefficient(f)]
            #![trigger score.controlled(f)]
            {
                &&& score.coefficient(f) == feature_coefficient(nodes, f)
                &&& score.controlled(f) == feature_controlled(nodes, f)
                &&& 0 <= score.coefficient(f) <= score.controlled(f) <= nodes.len()
                &&& (nodes.len() > 0 ==> score.coefficient(f) >= 1)
                &&& (nodes.len() == 0 ==> score.coefficient(f) == 0)
                &&& score.coefficient(f) <= actor_counts(column(nodes, f)).len()
            } by {
            lemma_feature_bounds(nodes, f);
        }
        assert(score.coefficient(Feature::City) >= 0);
    }

    /// A score with the coefficients and controlled nodes of `nodes` is the
    /// score of `nodes`.
    pub proof fn lemma_is_of(self, nodes: Seq<FeatureValues>)
        requires
            self.is_score_of(nodes),
        ensures
            self == NakamotoScore::of(nodes),
    {
        let other = NakamotoScore::of(nodes);
        assert(self.coefficient(Feature::NodeProvider) == feature_coefficient(nodes, Feature::NodeProvider));
        assert(self.coefficient(Feature::DataCenter) == feature_coefficient(nodes, Feature::DataCenter));
        assert(self.coefficient(Feature::DataCenterOwner) == feature_coefficient(nodes, Feature::DataCenterOwner));
        assert(self.coefficient(Feature::City) == feature_coefficient(nodes, Feature::City));
        assert(self.coefficient(Feature::Country) == feature_coefficient(nodes, Feature::Country));
        assert(self.coefficient(Feature::Continent) == feature_coefficient(nodes, Feature::Continent));
        assert(self.controlled(Feature::NodeProvider) == feature_controlled(nodes, Feature::NodeProvider));
        assert(self.controlled(Feature::DataCenter) == feature_controlled(nodes, Feature::DataCenter));
        assert(self.controlled(Feature::DataCenterOwner) == feature_controlled(nodes, Feature::DataCenterOwner));
        assert(self.controlled(Feature::City) == feature_controlled(nodes, Feature::City));
        assert(self.controlled(Feature::Country) == feature_controlled(nodes, Feature::Country));
        assert(self.controlled(Feature::Continent) == feature_controlled(nodes, Feature::Continent));
        assert(self.coefficients == other.coefficients);
        assert(self.controlled_nodes == other.controlled_nodes);
    }

    /// The score of no node at all.
    pub fn empty() -> (score: Self)
        ensures
            score.is_empty(),
            forall|f: Feature| score.controlled(f) == 0,
    {
        let score = NakamotoScore {
            coefficients: PerFeature::zero(),
            controlled_nodes: PerFeature::zero(),
        };
        score
    }

    /// The coefficient and the controlled nodes of `nodes` for one feature.
    fn feature_kernel(nodes: &[NodeFeatures], feature: &Feature) -> (result: (usize, usize))
        ensures
            result.0 == feature_coefficient(values_of(nodes@), *feature),
            result.1 == feature_controlled(values_of(nodes@), *feature),
    {
        let ghost whole = column(values_of(nodes@), *feature);
        let mut values: Vec<Option<String>> = Vec::new();
        let mut i: usize = 0;
        while i < nodes.len()
            invariant
                i <= nodes.len(),
                values@.len() == i,
                forall|j: int|
                    0 <= j < i ==> crate::node_features::text_of(values@[j]) == nodes@[j]@.get(
                        *feature,
                    ),
            decreases nodes.len() - i,
        {
            values.push(nodes[i].get(feature));
            i += 1;
        }
        assert(column_view(values@) =~= whole);
        let counts = actor_counts_of(&values);
        proof {
            // The kernel asks for no order, and so many nodes can be counted.
            crate::kernel::lemma_largest_first(actor_counts(whole));
            lemma_kernel_of_permutation(counts@, actor_counts(whole));
            lemma_feature_bounds(values_of(nodes@), *feature);
        }
        nakamoto_kernel(counts.as_slice())
    }

    /// The score of the nodes with these features: for every feature the
    /// Nakamoto coefficient of the values that the nodes have for it, and the
    /// number of nodes that the coalition behind it holds. A node without a
    /// value for a feature counts as an actor of its own.
    pub fn new_from_slice_node_features(slice_node_features: &[NodeFeatures]) -> (score: Self)
        ensures
            score == NakamotoScore::of(values_of(slice_node_features@)),
            score.is_score_of(values_of(slice_node_features@)),
            score.is_empty() <==> slice_node_features@.len() == 0,
            forall|f: Feature|
                #![trigger score.coefficient(f)]
                #![trigger score.controlled(f)]
                score.coefficient(f) <= score.controlled(f) <= slice_node_features@.len(),
    {
        let ghost nodes = values_of(slice_node_features@);
        let size = slice_node_features.len();
        let mut coefficients = PerFeature::zero();
        let mut controlled_nodes = PerFeature::zero();
        let all = Feature::variants();
        let mut i: usize = 0;
        while i < all.len()
            invariant
                i <= all.len(),
                all@ == Feature::all(),
                nodes == values_of(slice_node_features@),
                forall|j: int|
                    #![trigger Feature::all()[j]]
                    0 <= j < i ==> {
                        let f = Feature::all()[j];
                        &&& coefficients.get(f) == feature_coefficient(nodes, f)
                        &&& controlled_nodes.get(f) == feature_controlled(nodes, f)
                    },
            decreases all.len() - i,
        {
            let feature = all[i];
            let (coefficient, held) = NakamotoScore::feature_kernel(slice_node_features, &feature);
            let ghost before = (coefficients, controlled_nodes);
            coefficients.set(&feature, coefficient);
            controlled_nodes.set(&feature, held);
            proof {
                assert forall|j: int| 0 <= j < i implies coefficients.get(
                    #[trigger] Feature::all()[j],
                ) == before.0.get(Feature::all()[j]) && controlled_nodes.get(Feature::all()[j])
                    == before.1.get(Feature::all()[j]) by {}
            }
            i += 1;
        }
        proof {
            assert(nodes.len() == size);
            assert forall|f: Feature|
                coefficients.get(f) == feature_coefficient(nodes, f) && controlled_nodes.get(f)
                    == feature_controlled(nodes, f) && (nodes.len() == 0 ==> coefficients.get(f)
                    == 0) && (nodes.len() > 0 ==> coefficients.get(f) >= 1) by {
                Feature::lemma_all_is_complete(f);
                assert(Feature::all()[f.position()] == f);
                lemma_feature_bounds(nodes, f);
            }
        }
        let score = NakamotoScore { coefficients, controlled_nodes };
        proof {
            score.lemma_is_of(nodes);
            NakamotoScore::lemma_of(nodes);
        }
        score
    }

    /// The score of these nodes.
    pub fn new_from_nodes(nodes: &[Node]) -> (score: Self)
        ensures
            score == NakamotoScore::of(features_of(views(nodes@))),
    {
        let mut features: Vec<NodeFeatures> = Vec::new();
        let mut i: usize = 0;
        while i < nodes.len()
            invariant
                i <= nodes.len(),
                features@.len() == i,
                forall|j: int| 0 <= j < i ==> features@[j]@ == nodes@[j]@.features,
            decreases nodes.len() - i,
        {
            features.push(nodes[i].features.clone());
            i += 1;
        }
        assert(values_of(features@) =~= features_of(views(nodes@)));
        NakamotoScore::new_from_slice_node_features(features.as_slice())
    }

    /// Whether this is the score of no node at all.
    pub fn has_no_actor(&self) -> (empty: bool)
        ensures
            empty == self.is_empty(),
    {
        proof {
            use_type_invariant(self);
            assert(self.coefficient(Feature::NodeProvider) >= 0);
        }
        self.coefficients.node_provider == 0
    }

    /// The worst coefficient; `None`, which stands for infinity, for the
    /// score of no node at all.
    pub fn score_min(&self) -> (min: Option<usize>)
        ensures
            match min {
                Some(least) => self.minimum() == Some(least as int),
                None => self.minimum().is_none(),
            },
    {
        if self.has_no_actor() {
            return None;
        }
        let mut least = self.coefficients.node_provider;
        if self.coefficients.data_center < least {
            least = self.coefficients.data_center;
        }
        if self.coefficients.data_center_owner < least {
            least = self.coefficients.data_center_owner;
        }
        if self.coefficients.city < least {
            least = self.coefficients.city;
        }
        if self.coefficients.country < least {
            least = self.coefficients.country;
        }
        if self.coefficients.continent < least {
            least = self.coefficients.continent;
        }
        Some(least)
    }

    /// The sum of the six coefficients.
    pub fn coefficient_sum(&self) -> (sum: u128)
        ensures
            sum == self.sum(),
    {
        self.coefficients.node_provider as u128 + self.coefficients.data_center as u128
            + self.coefficients.data_center_owner as u128 + self.coefficients.city as u128
            + self.coefficients.country as u128 + self.coefficients.continent as u128
    }

    /// The mean of the six coefficients, as a fraction: their sum over their
    /// number. It is 0 for the score of no node at all.
    pub fn score_avg_linear(&self) -> (mean: Ratio)
        ensures
            mean.numerator == self.sum(),
            mean.denominator == 6,
    {
        Ratio { numerator: self.coefficient_sum(), denominator: 6 }
    }

    /// The number of coefficients that lie strictly below a mean of `sum / 6`.
    pub fn count_below_mean(&self, sum: u128) -> (count: usize)
        ensures
            count == self.count_below(sum as int),
            count <= 6,
    {
        let all = Feature::variants();
        let mut count: usize = 0;
        let mut i: usize = 0;
        let ghost term = |f: Feature|
            if below_mean(self.coefficient(f), sum as int) {
                1int
            } else {
                0int
            };
        while i < all.len()
            invariant
                i <= all.len(),
                all@ == Feature::all(),
                count == sum_first(term, i as int),
                count <= i,
                term == |f: Feature|
                    if below_mean(self.coefficient(f), sum as int) {
                        1int
                    } else {
                        0int
                    },
            decreases all.len() - i,
        {
            if is_below_mean(self.coefficients.at(&all[i]), sum) {
                count += 1;
            }
            i += 1;
        }
        proof {
            lemma_sum_first_all(term);
        }
        count
    }

    /// The number of nodes that the breaking coalitions of the worst features
    /// hold together: the sum of the controlled nodes over the features whose
    /// coefficient is the minimum. Always `Some`: every score holds a
    /// coefficient for every feature.
    pub fn control_power_critical_features(&self) -> (power: Option<u128>)
        ensures
            power == Some(self.critical_control_power() as u128),
            0 <= self.critical_control_power() <= 6 * usize::MAX,
    {
        let all = Feature::variants();
        let least = self.score_min();
        let mut power: u128 = 0;
        let mut i: usize = 0;
        let ghost term = |f: Feature|
            if self.minimum() == Some(self.coefficient(f)) {
                self.controlled(f)
            } else {
                0int
            };
        while i < all.len()
            invariant
                i <= all.len(),
                all@ == Feature::all(),
                power == sum_first(term, i as int),
                power <= i * usize::MAX,
                match least {
                    Some(worst) => self.minimum() == Some(worst as int),
                    None => self.minimum().is_none(),
                },
                term == |f: Feature|
                    if self.minimum() == Some(self.coefficient(f)) {
                        self.controlled(f)
                    } else {
                        0int
                    },
            decreases all.len() - i,
        {
            let feature = all[i];
            proof {
                assert((i + 1) * usize::MAX == i * usize::MAX + usize::MAX) by (nonlinear_arith);
                assert(i * usize::MAX <= 6 * usize::MAX) by (nonlinear_arith)
                    requires
                        i <= 6,
                ;
            }
            if least == Some(self.coefficients.at(&feature)) {
                power = power + self.controlled_nodes.at(&feature) as u128;
            }
            i += 1;
        }
        proof {
            lemma_sum_first_all(term);
        }
        Some(power)
    }

    /// The coefficients that take part in the means.
    pub fn mean_factors(&self) -> (factors: Vec<usize>)
        ensures
            factors@ == self.factors(),
            factors@.len() == 6,
    {
        let empty = self.has_no_actor();
        let all = Feature::variants();
        let mut factors: Vec<usize> = Vec::new();
        let mut i: usize = 0;
        while i < all.len()
            invariant
                i <= all.len(),
                all@ == Feature::all(),
                empty == self.is_empty(),
                factors@.len() == i,
                forall|j: int| 0 <= j < i ==> factors@[j] == self.factors()[j],
            decreases all.len() - i,
        {
            if empty {
                factors.push(1);
            } else {
                factors.push(self.coefficients.at(&all[i]));
            }
            i += 1;
        }
        assert(factors@ =~= self.factors());
        factors
    }

    /// The coefficient of every feature, in the order of the features.
    pub fn scores_individual(&self) -> (scores: Vec<(Feature, usize)>)
        ensures
            scores@.len() == 6,
            forall|i: int|
                0 <= i < 6 ==> scores@[i].0 == Feature::all()[i] && scores@[i].1
                    == self.coefficient(Feature::all()[i]),
    {
        let all = Feature::variants();
        let mut scores: Vec<(Feature, usize)> = Vec::new();
        let mut i: usize = 0;
        while i < all.len()
            invariant
                i <= all.len(),
                all@ == Feature::all(),
                scores@.len() == i,
                forall|j: int|
                    0 <= j < i ==> scores@[j].0 == Feature::all()[j] && scores@[j].1
                        == self.coefficient(Feature::all()[j]),
            decreases all.len() - i,
        {
            scores.push((all[i], self.coefficients.at(&all[i])));
            i += 1;
        }
        scores
    }

    /// The coefficient for one feature. Always `Some`: every score holds a
    /// coefficient for every feature.
    pub fn score_feature(&self, feature: &Feature) -> (score: Option<usize>)
        ensures
            score == Some(self.coefficient(*feature) as usize),
            self.coefficient(*feature) <= usize::MAX,
    {
        Some(self.coefficients.at(feature))
    }

    /// The number of nodes that the breaking coalition of one feature holds.
    /// Always `Some`.
    pub fn controlled_nodes(&self, feature: &Feature) -> (nodes: Option<usize>)
        ensures
            nodes == Some(self.controlled(*feature) as usize),
            self.controlled(*feature) <= usize::MAX,
    {
        Some(self.controlled_nodes.at(feature))
    }

    /// The Nakamoto coefficient of one feature, and the number of nodes that
    /// the coalition behind it holds, from the node counts of its actors.
    pub fn nakamoto(values: &[usize]) -> (result: (usize, usize))
        ensures
            result.0 == coefficient(values@),
            result.1 == saturated(controlled(values@)),
    {
        nakamoto_kernel(values)
    }
}

/// Whether `c`, one of six coefficients that add up to `sum`, lies strictly
/// below their mean.
pub fn is_below_mean(c: usize, sum: u128) -> (below: bool)
    ensures
        below == below_mean(c as int, sum as int),
{
    6 * (c as u128) < sum
}

impl Default for NakamotoScore {
    /// The score of no node at all.
    fn default() -> (score: Self)
        ensures
            score.is_empty(),
            forall|f: Feature| score.controlled(f) == 0,
    {
        NakamotoScore::empty()
    }
}

/// The column of a feature holds the same values whatever the order of the
/// nodes.
pub proof fn lemma_column_same_items(a: Seq<FeatureValues>, b: Seq<FeatureValues>, f: Feature)
    requires
        same_items(a, b),
    ensures
        same_items(column(a, f), column(b, f)),
    decreases a.len(),
{
    broadcast use vstd::seq_lib::group_to_multiset_ensures;

    lemma_same_length(a, b);
    if a.len() == 0 {
        assert(column(a, f) =~= column(b, f));
    } else {
        let at = lemma_peel(a, b);
        let x = a.last();
        lemma_column_same_items(a.drop_last(), b.remove(at), f);
        assert(column(a, f) =~= column(a.drop_last(), f).push(x.get(f)));
        assert(column(b, f) =~= column(b.remove(at), f).insert(at, x.get(f)));
    }
}

/// The score does not depend on the order of the nodes: two sets of nodes
/// that hold the same features, each as often as the other, have the same
/// coefficient and the same controlled nodes for every feature.
pub proof fn lemma_score_same_items(a: Seq<FeatureValues>, b: Seq<FeatureValues>, f: Feature)
    requires
        same_items(a, b),
    ensures
        feature_coefficient(a, f) == feature_coefficient(b, f),
        feature_controlled(a, f) == feature_controlled(b, f),
{
    lemma_column_same_items(a, b, f);
    lemma_actor_counts_same_items(column(a, f), column(b, f));
    lemma_kernel_of_permutation(actor_counts(column(a, f)), actor_counts(column(b, f)));
}

/// Scores of the same nodes in another order are equal.
pub proof fn lemma_scores_equal(
    first: NakamotoScore,
    second: NakamotoScore,
    a: Seq<FeatureValues>,
    b: Seq<FeatureValues>,
)
    requires
        same_items(a, b),
        first.is_score_of(a),
        second.is_score_of(b),
    ensures
        first == second,
{
    assert forall|f: Feature|
        first.coefficient(f) == second.coefficient(f) && first.controlled(f) == second.controlled(
            f,
        ) by {
        lemma_score_same_items(a, b, f);
    }
    assert(first.coefficient(Feature::NodeProvider) == second.coefficient(Feature::NodeProvider));
    assert(first.coefficient(Feature::DataCenter) == second.coefficient(Feature::DataCenter));
    assert(first.coefficient(Feature::DataCenterOwner) == second.coefficient(
        Feature::DataCenterOwner,
    ));
    assert(first.coefficient(Feature::City) == second.coefficient(Feature::City));
    assert(first.coefficient(Feature::Country) == second.coefficient(Feature::Country));
    assert(first.coefficient(Feature::Continent) == second.coefficient(Feature::Continent));
    assert(first.controlled(Feature::NodeProvider) == second.controlled(Feature::NodeProvider));
    assert(first.controlled(Feature::DataCenter) == second.controlled(Feature::DataCenter));
    assert(first.controlled(Feature::DataCenterOwner) == second.controlled(
        Feature::DataCenterOwner,
    ));
    assert(first.controlled(Feature::City) == second.controlled(Feature::City));
    assert(first.controlled(Feature::Country) == second.controlled(Feature::Country));
    assert(first.controlled(Feature::Continent) == second.controlled(Feature::Continent));
}

/// The bounds of the coefficient and the controlled nodes of one feature.
pub proof fn lemma_feature_bounds(nodes: Seq<FeatureValues>, f: Feature)
    requires
        nodes.len() <= usize::MAX,
    ensures
        0 <= feature_coefficient(nodes, f) <= feature_controlled(nodes, f) <= nodes.len(),
        nodes.len() > 0 ==> feature_coefficient(nodes, f) >= 1,
        nodes.len() == 0 ==> feature_coefficient(nodes, f) == 0,
        feature_coefficient(nodes, f) <= actor_counts(column(nodes, f)).len(),
        total(actor_counts(column(nodes, f))) == nodes.len(),
{
    let counts = actor_counts(column(nodes, f));
    lemma_total_actor_counts(column(nodes, f));
    if nodes.len() > 0 {
        lemma_kernel_bounds(counts);
    } else {
        assert(crate::kernel::largest_first(counts).take(0) =~= Seq::<usize>::empty());
    }
}

} // verus!
