//! The rules that the composition of a subnet has to meet.

use crate::feature::Feature;
use crate::kernel::{
    breaks, coefficient, controlled, largest_first, lemma_coefficient_is_least,
    lemma_kernel_bounds, lemma_largest_first, lemma_total_take_step, total,
};
use crate::node::{any_dfinity_owned, features_of, has_dfinity, views, Node, NodeView};
use crate::node_features::FeatureValues;
use crate::score::{
    column, feature_coefficient, feature_controlled, lemma_feature_bounds, NakamotoScore,
    PerFeature,
};
use crate::tally::actor_counts;
use crate::text::{append, append_decimal, decimal};
use vstd::prelude::*;

verus! {

/// The size from which a subnet must hold a node that DFINITY owns.
pub const DFINITY_PRESENCE_FROM: usize = 1;

/// The size from which no single node provider may break the tolerance. With
/// fewer than three nodes every node provider does.
pub const SINGLE_PROVIDER_FROM: usize = 3;

/// A rule that a subnet breaks.
#[derive(Clone, Copy, Debug, PartialEq, Eq, Structural)]
pub enum RuleViolation {
    /// DFINITY owns none of the nodes.
    DfinityOwnedNodeMissing,
    /// One value of `feature` holds `count` nodes, which is at least `limit`,
    /// two thirds of all.
    FeatureSuperMajority { feature: Feature, count: usize, limit: usize },
    /// One node provider alone holds more than a third of the nodes.
    SingleNodeProviderCanHalt,
    /// The coefficient `have` of `feature` is below the `want` asked for.
    BelowMinimumCoefficient { feature: Feature, have: usize, want: usize },
}

/// The least coefficient that the caller accepts for each feature; 0 where
/// the caller asks for nothing.
#[derive(Clone, Copy, Debug, PartialEq, Eq, Structural)]
pub struct MinNakamotoCoefficients {
    pub coefficients: PerFeature,
}

impl RuleViolation {
    /// The message for a reader.
    pub open spec fn message(self) -> Seq<char> {
        match self {
            RuleViolation::DfinityOwnedNodeMissing => "DFINITY-owned node missing"@,
            RuleViolation::FeatureSuperMajority { feature, count, limit } => "Feature '"@
                + feature.name() + "' controls "@ + decimal(count as nat)
                + " of nodes, which is >= "@ + decimal(limit as nat) + " (2/3 of all) nodes"@,
            RuleViolation::SingleNodeProviderCanHalt => "A single Node Provider can halt a subnet"@,
            RuleViolation::BelowMinimumCoefficient { feature, have, want } => "Feature '"@
                + feature.name() + "' has the coefficient "@ + decimal(have as nat)
                + ", which is below "@ + decimal(want as nat),
        }
    }

    /// The message for a reader.
    pub fn to_string(&self) -> (text: String)
        ensures
            text@ == self.message(),
    {
        match self {
            RuleViolation::DfinityOwnedNodeMissing => "DFINITY-owned node missing".to_owned(),
            RuleViolation::FeatureSuperMajority { feature, count, limit } => {
                let mut text = "Feature '".to_owned();
                append(&mut text, feature.as_str());
                append(&mut text, "' controls ");
                append_decimal(&mut text, *count as u128);
                append(&mut text, " of nodes, which is >= ");
                append_decimal(&mut text, *limit as u128);
                append(&mut text, " (2/3 of all) nodes");
                text
            },
            RuleViolation::SingleNodeProviderCanHalt => {
                "A single Node Provider can halt a subnet".to_owned()
            },
            RuleViolation::BelowMinimumCoefficient { feature, have, want } => {
                let mut text = "Feature '".to_owned();
                append(&mut text, feature.as_str());
                append(&mut text, "' has the coefficient ");
                append_decimal(&mut text, *have as u128);
                append(&mut text, ", which is below ");
                append_decimal(&mut text, *want as u128);
                text
            },
        }
    }
}

/// The number of nodes from which one value holds two thirds of `n` nodes:
/// two thirds of `n`, rounded up.
pub open spec fn super_majority_limit(n: int) -> int {
    (2 * n + 2) / 3
}

/// The number of nodes of the largest actor of `feature`; 0 without nodes.
pub open spec fn largest_actor(nodes: Seq<FeatureValues>, feature: Feature) -> int {
    let counts = largest_first(actor_counts(column(nodes, feature)));
    if counts.len() == 0 {
        0
    } else {
        counts[0] as int
    }
}

/// Whether one value of `feature` holds two thirds of the nodes.
pub open spec fn has_super_majority(nodes: Seq<FeatureValues>, feature: Feature) -> bool {
    nodes.len() > 0 && largest_actor(nodes, feature) >= super_majority_limit(nodes.len() as int)
}

/// The first feature from place `from` on of which one value holds two
/// thirds of the nodes.
pub open spec fn first_super_majority(nodes: Seq<FeatureValues>, from: int) -> Option<Feature>
    decreases 6 - from,
{
    if from < 0 || from >= 6 {
        None
    } else if has_super_majority(nodes, Feature::all()[from]) {
        Some(Feature::all()[from])
    } else {
        first_super_majority(nodes, from + 1)
    }
}

/// The first feature from place `from` on whose coefficient is below what
/// the caller asks for.
pub open spec fn first_below_minimum(
    nodes: Seq<FeatureValues>,
    wanted: PerFeature,
    from: int,
) -> Option<Feature>
    decreases 6 - from,
{
    if from < 0 || from >= 6 {
        None
    } else if feature_coefficient(nodes, Feature::all()[from]) < wanted.get(Feature::all()[from]) {
        Some(Feature::all()[from])
    } else {
        first_below_minimum(nodes, wanted, from + 1)
    }
}

/// The first rule that `nodes` break, if they break one. In this order: a
/// node that DFINITY owns is missing; one value of a feature holds two
/// thirds of the nodes, for the first such feature; one node provider alone
/// breaks the tolerance of a subnet of three nodes or more; a coefficient is
/// below what the caller asks for, for the first such feature.
pub open spec fn violation(nodes: Seq<NodeView>, wanted: Option<MinNakamotoCoefficients>) -> Option<
    RuleViolation,
> {
    let features = features_of(nodes);
    if nodes.len() >= DFINITY_PRESENCE_FROM && !has_dfinity(nodes) {
        Some(RuleViolation::DfinityOwnedNodeMissing)
    } else if first_super_majority(features, 0).is_some() {
        let feature = first_super_majority(features, 0).unwrap();
        Some(
            RuleViolation::FeatureSuperMajority {
                feature,
                count: largest_actor(features, feature) as usize,
                limit: super_majority_limit(nodes.len() as int) as usize,
            },
        )
    } else if feature_coefficient(features, Feature::NodeProvider) == 1 && nodes.len()
        >= SINGLE_PROVIDER_FROM {
        Some(RuleViolation::SingleNodeProviderCanHalt)
    } else if wanted.is_some() && first_below_minimum(
        features,
        wanted.unwrap().coefficients,
        0,
    ).is_some() {
        let feature = first_below_minimum(features, wanted.unwrap().coefficients, 0).unwrap();
        Some(
            RuleViolation::BelowMinimumCoefficient {
                feature,
                have: feature_coefficient(features, feature) as usize,
                want: wanted.unwrap().coefficients.get(feature),
            },
        )
    } else {
        None
    }
}

/// Whether `nodes` meet every rule.
pub open spec fn is_valid(nodes: Seq<NodeView>, wanted: Option<MinNakamotoCoefficients>) -> bool {
    violation(nodes, wanted).is_none()
}

/// The largest actor alone breaks the tolerance exactly when the coefficient
/// is 1, and it then holds the controlled nodes.
pub proof fn lemma_largest_actor(counts: Seq<usize>)
    requires
        total(counts) > 0,
    ensures
        counts.len() > 0,
        largest_first(counts)[0] >= 1,
        coefficient(counts) == 1 <==> largest_first(counts)[0] > total(counts) / 3,
        coefficient(counts) == 1 ==> controlled(counts) == largest_first(counts)[0],
{
    let sorted = largest_first(counts);
    lemma_kernel_bounds(counts);
    lemma_largest_first(counts);
    lemma_total_take_step(sorted, 0);
    assert(sorted.take(0) =~= Seq::<usize>::empty());
    assert(total(sorted.take(1)) == sorted[0]);
    if breaks(counts, 1) {
        lemma_coefficient_is_least(counts, 1);
    }
    let c = coefficient(counts);
    if sorted[0] == 0 {
        lemma_all_zero(sorted, c);
    }
}

/// A prefix of a sequence that begins with zero and never grows holds
/// nothing.
proof fn lemma_all_zero(sorted: Seq<usize>, k: int)
    requires
        0 <= k <= sorted.len(),
        sorted.len() > 0,
        sorted[0] == 0,
        vstd::relations::sorted_by(sorted, crate::kernel::more_first()),
    ensures
        total(sorted.take(k)) == 0,
    decreases k,
{
    if k > 0 {
        lemma_all_zero(sorted, k - 1);
        lemma_total_take_step(sorted, k - 1);
        if k - 1 > 0 {
            assert(crate::kernel::more_first()(sorted[0], sorted[k - 1]));
        }
    } else {
        assert(sorted.take(0) =~= Seq::<usize>::empty());
    }
}

/// One value holds two thirds of the nodes exactly when the coefficient is 1
/// and the coalition, which is then that one value, holds the limit.
pub proof fn lemma_super_majority(nodes: Seq<FeatureValues>, feature: Feature)
    requires
        nodes.len() <= usize::MAX,
    ensures
        has_super_majority(nodes, feature) <==> (feature_coefficient(nodes, feature) == 1
            && feature_controlled(nodes, feature) >= super_majority_limit(nodes.len() as int)),
        has_super_majority(nodes, feature) ==> largest_actor(nodes, feature) == feature_controlled(
            nodes,
            feature,
        ),
{
    lemma_feature_bounds(nodes, feature);
    if nodes.len() > 0 {
        lemma_largest_actor(actor_counts(column(nodes, feature)));
        lemma_largest_first(actor_counts(column(nodes, feature)));
    }
}

/// The first rule that the nodes break, if they break one.
pub fn check_nodes(nodes: &Vec<Node>, wanted: &Option<MinNakamotoCoefficients>) -> (checked: Result<
    (),
    RuleViolation,
>)
    ensures
        match checked {
            Ok(_) => violation(views(nodes@), *wanted).is_none(),
            Err(broken) => violation(views(nodes@), *wanted) == Some(broken),
        },
{
    let score = NakamotoScore::new_from_nodes(nodes.as_slice());
    check_scored_nodes(nodes, &score, wanted)
}

/// The first rule that the nodes break, if they break one, where their
/// score is at hand.
#[verifier::loop_isolation(false)]
pub(crate) fn check_scored_nodes(
    nodes: &Vec<Node>,
    score: &NakamotoScore,
    wanted: &Option<MinNakamotoCoefficients>,
) -> (checked: Result<(), RuleViolation>)
    requires
        *score == NakamotoScore::of(features_of(views(nodes@))),
    ensures
        match checked {
            Ok(_) => violation(views(nodes@), *wanted).is_none(),
            Err(broken) => violation(views(nodes@), *wanted) == Some(broken),
        },
{
    let ghost features = features_of(views(nodes@));
    let size = nodes.len();
    proof {
        NakamotoScore::lemma_of(features);
    }
    if size >= DFINITY_PRESENCE_FROM && !any_dfinity_owned(nodes) {
        return Err(RuleViolation::DfinityOwnedNodeMissing);
    }
    // Two thirds of `size`, rounded up, without overflow.
    let limit: usize = size / 3 * 2 + (size % 3 * 2 + 2) / 3;
    assert(limit == super_majority_limit(size as int));
    let all = Feature::variants();
    let mut i: usize = 0;
    while i < all.len()
        invariant
            i <= all.len(),
            all@ == Feature::all(),
            features == features_of(views(nodes@)),
            features.len() == size,
            limit == super_majority_limit(size as int),
            score.is_score_of(features),
            first_super_majority(features, 0) == first_super_majority(features, i as int),
        decreases all.len() - i,
    {
        let feature = all[i];
        let held = score.controlled_nodes(&feature).unwrap();
        proof {
            lemma_super_majority(features, feature);
        }
        if score.score_feature(&feature).unwrap() == 1 && held >= limit {
            return Err(RuleViolation::FeatureSuperMajority { feature, count: held, limit });
        }
        i += 1;
    }
    if score.score_feature(&Feature::NodeProvider).unwrap() == 1 && size >= SINGLE_PROVIDER_FROM {
        return Err(RuleViolation::SingleNodeProviderCanHalt);
    }
    match wanted {
        None => Ok(()),
        Some(least) => {
            let mut j: usize = 0;
            while j < all.len()
                invariant
                    j <= all.len(),
                    all@ == Feature::all(),
                    score.is_score_of(features),
                    first_below_minimum(features, least.coefficients, 0) == first_below_minimum(
                        features,
                        least.coefficients,
                        j as int,
                    ),
                decreases all.len() - j,
            {
                let feature = all[j];
                let have = score.score_feature(&feature).unwrap();
                let want = least.coefficients.at(&feature);
                if have < want {
                    return Err(RuleViolation::BelowMinimumCoefficient { feature, have, want });
                }
                j += 1;
            }
            Ok(())
        },
    }
}

} // verus!
