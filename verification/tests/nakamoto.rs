use decentralization::definition::{after_key, after_name, after_ping, answer_of, first_step, Action, Answer};
use decentralization::feature::Feature;
use decentralization::network::{NetworkError, Subnet};
use decentralization::node::{Node, PrincipalId};
use decentralization::node_features::NodeFeatures;
use decentralization::rules::RuleViolation;
use decentralization::score::{NakamotoScore, Ratio};
use decentralization::tally::actor_counts_of;
use std::cmp::Ordering;

/// The worst coefficient as a float, with infinity for the score of no node.
fn score_min(score: &NakamotoScore) -> f64 {
    match score.score_min() {
        Some(min) => min as f64,
        None => f64::INFINITY,
    }
}

/// The mean of the coefficients as a float.
fn score_avg_linear(score: &NakamotoScore) -> f64 {
    let mean = score.score_avg_linear();
    mean.numerator as f64 / mean.denominator as f64
}

/// The mean of the binary logarithms of the coefficients as a float.
fn score_avg_log2(score: &NakamotoScore) -> f64 {
    let factors = score.mean_factors();
    factors.iter().map(|c| (*c as f64).log2()).sum::<f64>() / factors.len() as f64
}

/// Generate a new Vec<Node> of len num_nodes, out of which
/// num_dfinity_nodes are DFINITY-owned
fn new_test_nodes(feat_prefix: &str, num_nodes: usize, num_dfinity_nodes: usize) -> Vec<Node> {
    let mut subnet_nodes = Vec::new();
    for i in 0..num_nodes {
        let dfinity_owned = i < num_dfinity_nodes;
        let node_features = NodeFeatures::new_test_feature_set(&format!("{} {}", feat_prefix, i));
        let node = Node::new_test_node(i as u64, node_features, dfinity_owned);
        subnet_nodes.push(node);
    }
    subnet_nodes
}

/// Generate a new test subnet with num_nodes, out of which
/// num_dfinity_nodes are DFINITY-owned
fn new_test_subnet(subnet_num: u64, num_nodes: usize, num_dfinity_nodes: usize) -> Subnet {
    Subnet {
        id: PrincipalId::new_subnet_test_id(subnet_num),
        nodes: new_test_nodes("feat", num_nodes, num_dfinity_nodes),
    }
}

#[test]
fn computes_nakamoto_scores() {
    assert_eq!((0, 0), NakamotoScore::nakamoto(&[])); // empty vector
    assert_eq!((1, 1), NakamotoScore::nakamoto(&[1])); // one actor controls 1 node
    assert_eq!((1, 3), NakamotoScore::nakamoto(&[3])); // one actor controls 3 nodes
    for actors in 1..100 {
        // If 3..100 actors have 1 nodes each, then > 1/3 of the nodes needs to be
        // malicious
        assert_eq!(
            (1 + (actors / 3), 1 + (actors / 3)),
            NakamotoScore::nakamoto(&std::iter::repeat(1).take(actors).collect::<Vec<usize>>())
        );
    }
    // Included above as well, but more explicit for readability: 5/13 nodes need to
    // be malicious
    assert_eq!(
        (5, 5),
        NakamotoScore::nakamoto(&std::iter::repeat(1).take(13).collect::<Vec<usize>>())
    );
    assert_eq!((1, 3), NakamotoScore::nakamoto(&[1, 2, 3])); // one actor controls 3/6 nodes
    assert_eq!((1, 3), NakamotoScore::nakamoto(&[2, 3, 1])); // one actor controls 3/6 nodes
    assert_eq!((1, 3), NakamotoScore::nakamoto(&[3, 2, 1])); // one actor controls 3/6 nodes
    assert_eq!((2, 4), NakamotoScore::nakamoto(&[1, 2, 1, 2, 1])); // two top actors control 4/7 nodes
    assert_eq!((1, 5), NakamotoScore::nakamoto(&[1, 1, 2, 3, 5, 1])); // one top actor controls 5/13 nodes
    assert_eq!((2, 8), NakamotoScore::nakamoto(&[1, 1, 2, 3, 5, 1, 2])); // two top actors control 8/15 nodes
}

#[test]
fn score_from_features() {
    let features = vec![NodeFeatures::new_test_feature_set("foo")];
    let score = NakamotoScore::new_from_slice_node_features(&features);

    for feature in [
        Feature::City,
        Feature::Country,
        Feature::Continent,
        Feature::DataCenterOwner,
        Feature::NodeProvider,
        Feature::DataCenter,
    ] {
        assert_eq!(score.score_feature(&feature).map(|c| c as f64), Some(1.));
        assert_eq!(score.controlled_nodes(&feature), Some(1));
    }
    assert_eq!(score_avg_linear(&score), 1.);
    assert_eq!(score_avg_log2(&score), 0.);
    assert_eq!(score_min(&score), 1.);
    assert_eq!(score, NakamotoScore::new_from_slice_node_features(&features));
}

#[test]
fn test_business_rules_pass() {
    // If there is exactly one DFINITY-owned node in a subnet ==> pass
    new_test_subnet(0, 7, 1).check_business_rules().unwrap();
    new_test_subnet(0, 12, 1).check_business_rules().unwrap();
    new_test_subnet(0, 13, 1).check_business_rules().unwrap();
    new_test_subnet(0, 13, 2).check_business_rules().unwrap();
    new_test_subnet(0, 14, 1).check_business_rules().unwrap();
    new_test_subnet(0, 25, 1).check_business_rules().unwrap();
    new_test_subnet(0, 25, 2).check_business_rules().unwrap();
    new_test_subnet(0, 26, 1).check_business_rules().unwrap();
    new_test_subnet(0, 26, 2).check_business_rules().unwrap();
    new_test_subnet(0, 27, 2).check_business_rules().unwrap();
    new_test_subnet(0, 38, 2).check_business_rules().unwrap();
    new_test_subnet(0, 38, 3).check_business_rules().unwrap();
    new_test_subnet(0, 39, 3).check_business_rules().unwrap();
    new_test_subnet(0, 40, 3).check_business_rules().unwrap();
    new_test_subnet(0, 51, 3).check_business_rules().unwrap();
    new_test_subnet(0, 51, 4).check_business_rules().unwrap();
    new_test_subnet(0, 52, 4).check_business_rules().unwrap();
    new_test_subnet(0, 53, 4).check_business_rules().unwrap();
}

#[test]
fn extend_feature_set_group() {
    let subnet_initial = new_test_subnet(0, 12, 1);
    let nodes_available = new_test_nodes("spare", 1, 0);
    // The spare node gets an identity of its own.
    let nodes_available: Vec<Node> = nodes_available
        .iter()
        .map(|n| Node::new_test_node(12 + n.id.0, n.features.clone(), n.dfinity_owned))
        .collect();

    let extended_subnet = subnet_initial.new_extended_subnet(1, &nodes_available).unwrap();
    assert_eq!(
        extended_subnet.nodes,
        subnet_initial
            .nodes
            .iter()
            .chain(nodes_available.iter())
            .cloned()
            .collect::<Vec<_>>()
    );
}

#[test]
fn extend_rejects_a_member_as_candidate() {
    let subnet_initial = new_test_subnet(0, 12, 1);
    let nodes_available = new_test_nodes("spare", 1, 0);
    assert_eq!(
        subnet_initial.new_extended_subnet(1, &nodes_available).unwrap_err(),
        NetworkError::UnknownNode { id: PrincipalId(0) }
    );
}

#[test]
fn single_node_breaks_the_super_majority_rule() {
    assert_eq!(
        new_test_subnet(0, 1, 1).check_business_rules().unwrap_err(),
        RuleViolation::FeatureSuperMajority { feature: Feature::NodeProvider, count: 1, limit: 1 }
    );
}

/// Nodes of which, for each feature, as many share a value as the groups
/// say: the first group the first nodes, and so on.
fn nodes_in_groups(groups: [&[usize]; 6]) -> Vec<NodeFeatures> {
    let size: usize = groups[0].iter().sum();
    let mut nodes = Vec::new();
    for i in 0..size {
        let mut pairs = Vec::new();
        for (place, feature) in Feature::variants().into_iter().enumerate() {
            assert_eq!(groups[place].iter().sum::<usize>(), size);
            let mut group = 0;
            let mut end = groups[place][0];
            while end <= i {
                group += 1;
                end += groups[place][group];
            }
            pairs.push((feature, format!("value {}", group)));
        }
        nodes.push(NodeFeatures::from_iter(pairs));
    }
    nodes
}

fn score_of_groups(groups: [&[usize]; 6]) -> NakamotoScore {
    NakamotoScore::new_from_slice_node_features(&nodes_in_groups(groups))
}

fn coefficients(score: &NakamotoScore) -> Vec<usize> {
    score.scores_individual().iter().map(|(_, c)| *c).collect()
}

#[test]
fn kernel_a_node_for_a_large_actor_never_raises_the_coefficient() {
    assert_eq!(NakamotoScore::nakamoto(&[3, 1, 1]), (1, 3));
    assert_eq!(NakamotoScore::nakamoto(&[4, 1, 1]), (1, 4));
    assert_eq!(NakamotoScore::nakamoto(&[2, 2, 1, 1, 1]), (2, 4));
    assert_eq!(NakamotoScore::nakamoto(&[2, 3, 1, 1, 1]), (1, 3));
    // A node for a small actor may raise the tolerance past the largest one.
    assert_eq!(NakamotoScore::nakamoto(&[2, 1, 1, 1]), (1, 2));
    assert_eq!(NakamotoScore::nakamoto(&[2, 2, 1, 1]), (2, 4));
}

#[test]
fn kernel_stays_within_its_bounds() {
    let inputs: Vec<Vec<usize>> = vec![
        vec![1],
        vec![5, 5, 5],
        vec![1, 1, 2, 3, 5, 1, 2],
        vec![7, 1, 1, 1, 1, 1, 1, 1, 1],
        vec![0, 4, 0, 4, 1],
        vec![1; 40],
    ];
    for values in inputs {
        let total: usize = values.iter().sum();
        let (coefficient, controlled) = NakamotoScore::nakamoto(&values);
        assert!(1 <= coefficient && coefficient <= values.len());
        assert!(controlled >= coefficient);
        assert!(controlled > total / 3);
        assert!(controlled <= total);
    }
}

#[test]
fn kernel_does_not_depend_on_the_order() {
    let expected = NakamotoScore::nakamoto(&[1, 1, 2, 3, 5, 1, 2]);
    assert_eq!(expected, (2, 8));
    assert_eq!(NakamotoScore::nakamoto(&[5, 3, 2, 2, 1, 1, 1]), expected);
    assert_eq!(NakamotoScore::nakamoto(&[1, 1, 1, 2, 2, 3, 5]), expected);
    assert_eq!(NakamotoScore::nakamoto(&[2, 1, 5, 1, 3, 1, 2]), expected);
    assert_eq!(NakamotoScore::nakamoto(&[3, 2, 1, 5, 2, 1, 1]), expected);
}

#[test]
fn kernel_counts_actors_without_nodes_last() {
    assert_eq!(NakamotoScore::nakamoto(&[0, 0]), (0, 0));
    assert_eq!(NakamotoScore::nakamoto(&[0, 2, 0]), (1, 2));
    assert_eq!(NakamotoScore::nakamoto(&[0, 1, 0, 1, 1, 0]), (2, 2));
}

#[test]
fn kernel_holds_huge_counts() {
    let max = usize::MAX;
    assert_eq!(NakamotoScore::nakamoto(&[max, max, 1]), (1, max));
    // Three of six equal actors hold more than a third; their nodes are
    // more than a machine integer holds.
    assert_eq!(NakamotoScore::nakamoto(&[max, max, max, max, max, max]), (3, max));
    assert_eq!(NakamotoScore::nakamoto(&[max, 1, max, 1, max]), (2, max));
}

#[test]
fn actors_are_counted_by_value() {
    let column = vec![
        Some("a".to_string()),
        Some("b".to_string()),
        Some("a".to_string()),
        None,
        None,
        Some("a".to_string()),
        Some("c".to_string()),
        Some("b".to_string()),
    ];
    assert_eq!(actor_counts_of(&column), vec![3, 2, 1, 1, 1]);
    assert!(actor_counts_of(&Vec::new()).is_empty());
    assert_eq!(actor_counts_of(&vec![None, None]), vec![1, 1]);
}

#[test]
fn score_of_no_node() {
    let score = NakamotoScore::new_from_slice_node_features(&[]);
    assert!(score.has_no_actor());
    for feature in Feature::variants() {
        assert_eq!(score.score_feature(&feature), Some(0));
        assert_eq!(score.controlled_nodes(&feature), Some(0));
    }
    assert_eq!(score.score_min(), None);
    assert_eq!(score_min(&score), f64::INFINITY);
    assert_eq!(score.score_avg_linear(), Ratio { numerator: 0, denominator: 6 });
    assert_eq!(score_avg_linear(&score), 0.);
    assert_eq!(score_avg_log2(&score), 0.);
    assert_eq!(score.control_power_critical_features(), Some(0));
    assert_eq!(score, NakamotoScore::default());
    assert_eq!(score, NakamotoScore::empty());
}

#[test]
fn score_counts_a_missing_value_as_an_actor_of_its_own() {
    let unknown = vec![NodeFeatures::new(), NodeFeatures::new(), NodeFeatures::new()];
    let score = NakamotoScore::new_from_slice_node_features(&unknown);
    for feature in Feature::variants() {
        assert_eq!(score.score_feature(&feature), Some(2));
        assert_eq!(score.controlled_nodes(&feature), Some(2));
    }
    let same = vec![
        NodeFeatures::new_test_feature_set("x"),
        NodeFeatures::new_test_feature_set("x"),
        NodeFeatures::new_test_feature_set("x"),
    ];
    let score = NakamotoScore::new_from_slice_node_features(&same);
    for feature in Feature::variants() {
        assert_eq!(score.score_feature(&feature), Some(1));
        assert_eq!(score.controlled_nodes(&feature), Some(3));
    }
}

#[test]
fn score_aggregates() {
    let score = score_of_groups([&[3, 1, 1, 1], &[2, 2, 1, 1], &[1; 6], &[6], &[2, 2, 2], &[4, 2]]);
    assert_eq!(coefficients(&score), vec![1, 2, 3, 1, 2, 1]);
    assert_eq!(score.controlled_nodes(&Feature::NodeProvider), Some(3));
    assert_eq!(score.controlled_nodes(&Feature::DataCenter), Some(4));
    assert_eq!(score.controlled_nodes(&Feature::DataCenterOwner), Some(3));
    assert_eq!(score.controlled_nodes(&Feature::City), Some(6));
    assert_eq!(score.controlled_nodes(&Feature::Country), Some(4));
    assert_eq!(score.controlled_nodes(&Feature::Continent), Some(4));
    assert_eq!(score.score_min(), Some(1));
    assert_eq!(score.score_avg_linear(), Ratio { numerator: 10, denominator: 6 });
    assert_eq!(score.coefficient_sum(), 10);
    // Below the mean of 10/6 lie the three coefficients of 1.
    assert_eq!(score.count_below_mean(10), 3);
    // The worst features hold 3, 6 and 4 nodes.
    assert_eq!(score.control_power_critical_features(), Some(13));
    assert_eq!(score.mean_factors(), vec![1, 2, 3, 1, 2, 1]);
    assert_eq!(
        score.scores_individual().iter().map(|(f, _)| *f).collect::<Vec<_>>(),
        Feature::variants()
    );
    assert!((score_avg_log2(&score) - (12f64).log2() / 6.).abs() < 1e-12);
}

#[test]
fn score_does_not_depend_on_the_order_of_the_nodes() {
    let nodes = nodes_in_groups([&[3, 1, 1, 1], &[2, 2, 1, 1], &[1; 6], &[6], &[2, 2, 2], &[4, 2]]);
    let score = NakamotoScore::new_from_slice_node_features(&nodes);
    let mut turned = nodes.clone();
    turned.reverse();
    assert_eq!(NakamotoScore::new_from_slice_node_features(&turned), score);
    let mut rotated = nodes.clone();
    rotated.rotate_left(2);
    rotated.swap(0, 4);
    assert_eq!(NakamotoScore::new_from_slice_node_features(&rotated), score);
}

#[test]
fn score_of_nodes_is_the_score_of_their_features() {
    let nodes = new_test_nodes("feat", 7, 1);
    let features: Vec<NodeFeatures> = nodes.iter().map(|n| n.features.clone()).collect();
    assert_eq!(
        NakamotoScore::new_from_nodes(&nodes),
        NakamotoScore::new_from_slice_node_features(&features)
    );
    assert_eq!(coefficients(&NakamotoScore::new_from_nodes(&nodes)), vec![3; 6]);
}

#[test]
fn order_prefers_the_higher_minimum() {
    let low = score_of_groups([&[3, 1, 1, 1], &[1; 6], &[1; 6], &[1; 6], &[1; 6], &[1; 6]]);
    let high = score_of_groups([&[2, 2, 1, 1], &[2, 2, 1, 1], &[2, 2, 1, 1], &[2, 2, 1, 1], &[2, 2, 1, 1], &[2, 2, 1, 1]]);
    assert_eq!(coefficients(&low), vec![1, 3, 3, 3, 3, 3]);
    assert_eq!(coefficients(&high), vec![2; 6]);
    assert_eq!(low.cmp(&high), Ordering::Less);
    assert_eq!(high.cmp(&low), Ordering::Greater);
    assert!(high.is_better_than(&low));
    assert!(!low.is_better_than(&high));
    assert!(low < high);
    assert_eq!(low.partial_cmp(&high), Some(Ordering::Less));
    // The score of no node has no minimum, which counts as infinity.
    let empty = NakamotoScore::empty();
    assert_eq!(empty.cmp(&high), Ordering::Greater);
    assert_eq!(high.cmp(&empty), Ordering::Less);
    assert_eq!(empty.cmp(&empty), Ordering::Equal);
}

#[test]
fn order_prefers_fewer_weak_coefficients() {
    let few = score_of_groups([&[3, 1, 1, 1], &[1; 6], &[1; 6], &[1; 6], &[1; 6], &[1; 6]]);
    let many = score_of_groups([&[3, 1, 1, 1], &[3, 1, 1, 1], &[1; 6], &[1; 6], &[1; 6], &[1; 6]]);
    assert_eq!(coefficients(&few), vec![1, 3, 3, 3, 3, 3]);
    assert_eq!(coefficients(&many), vec![1, 1, 3, 3, 3, 3]);
    assert_eq!(few.cmp(&many), Ordering::Greater);
    assert_eq!(many.cmp(&few), Ordering::Less);
}

#[test]
fn order_prefers_the_larger_weak_coefficient() {
    // Two weak coefficients on either side; on the first feature where they
    // differ the larger one wins.
    let first = score_of_groups([&[3, 1, 1, 1], &[2, 2, 1, 1], &[1; 6], &[1; 6], &[1; 6], &[1; 6]]);
    let second = score_of_groups([&[3, 1, 1, 1], &[1; 6], &[2, 2, 1, 1], &[1; 6], &[1; 6], &[1; 6]]);
    assert_eq!(coefficients(&first), vec![1, 2, 3, 3, 3, 3]);
    assert_eq!(coefficients(&second), vec![1, 3, 2, 3, 3, 3]);
    assert_eq!(first.cmp(&second), Ordering::Less);
    assert_eq!(second.cmp(&first), Ordering::Greater);
}

#[test]
fn order_prefers_less_control_by_the_worst_features() {
    let tight = score_of_groups([&[3, 1, 1, 1], &[1; 6], &[1; 6], &[1; 6], &[1; 6], &[1; 6]]);
    let loose = score_of_groups([&[4, 1, 1], &[1; 6], &[1; 6], &[1; 6], &[1; 6], &[1; 6]]);
    assert_eq!(coefficients(&tight), coefficients(&loose));
    assert_eq!(tight.control_power_critical_features(), Some(3));
    assert_eq!(loose.control_power_critical_features(), Some(4));
    assert_eq!(tight.cmp(&loose), Ordering::Greater);
    assert_eq!(loose.cmp(&tight), Ordering::Less);
    assert_ne!(tight, loose);
}

#[test]
fn order_falls_back_on_the_means() {
    // The coefficients 1, 5, 5, 5, 5, 5 and 1, 5, 5, 5, 5, 6 have the minimum,
    // the weak coefficient and the control of the worst feature in common;
    // the products are 3125 and 3750.
    let one: &[usize] = &[6, 1, 1, 1, 1, 1, 1, 1, 1, 1];
    let five: &[usize] = &[2, 1, 1, 1, 1, 1, 1, 1, 1, 1, 1, 1, 1, 1];
    let six: &[usize] = &[1; 15];
    let even = score_of_groups([one, five, five, five, five, five]);
    let better = score_of_groups([one, five, five, five, five, six]);
    assert_eq!(coefficients(&even), vec![1, 5, 5, 5, 5, 5]);
    assert_eq!(coefficients(&better), vec![1, 5, 5, 5, 5, 6]);
    assert_eq!(even.control_power_critical_features(), Some(6));
    assert_eq!(better.control_power_critical_features(), Some(6));
    assert_eq!(even.cmp(&better), Ordering::Less);
    assert_eq!(better.cmp(&even), Ordering::Greater);
}

#[test]
fn order_is_three_valued_and_sees_equal_scores_as_equal() {
    let score = score_of_groups([&[3, 1, 1, 1], &[2, 2, 1, 1], &[1; 6], &[6], &[2, 2, 2], &[4, 2]]);
    let again = score_of_groups([&[3, 1, 1, 1], &[2, 2, 1, 1], &[1; 6], &[6], &[2, 2, 2], &[4, 2]]);
    assert_eq!(score, again);
    assert_eq!(score.cmp(&again), Ordering::Equal);
    assert!(score.is_tied_with(&again));
    assert!(!score.is_better_than(&again));
}

#[test]
fn order_may_see_each_side_as_the_better_one() {
    // The mean of the first score makes the second look weak everywhere; the
    // mean of the second makes the first look weak five times.
    let first = score_of_groups([
        &[13, 1, 1, 1, 1, 1, 1, 1, 1, 1, 1, 1, 1, 1, 1, 1, 1, 1, 1, 1, 1, 1, 1, 1, 1],
        &[13, 1, 1, 1, 1, 1, 1, 1, 1, 1, 1, 1, 1, 1, 1, 1, 1, 1, 1, 1, 1, 1, 1, 1, 1],
        &[13, 1, 1, 1, 1, 1, 1, 1, 1, 1, 1, 1, 1, 1, 1, 1, 1, 1, 1, 1, 1, 1, 1, 1, 1],
        &[13, 1, 1, 1, 1, 1, 1, 1, 1, 1, 1, 1, 1, 1, 1, 1, 1, 1, 1, 1, 1, 1, 1, 1, 1],
        &[13, 1, 1, 1, 1, 1, 1, 1, 1, 1, 1, 1, 1, 1, 1, 1, 1, 1, 1, 1, 1, 1, 1, 1, 1],
        &[1; 37],
    ]);
    let second = score_of_groups([&[3, 1, 1, 1], &[2, 2, 1, 1], &[2, 2, 1, 1], &[2, 2, 1, 1], &[2, 2, 1, 1], &[2, 2, 1, 1]]);
    assert_eq!(coefficients(&first), vec![1, 1, 1, 1, 1, 13]);
    assert_eq!(coefficients(&second), vec![1, 2, 2, 2, 2, 2]);
    assert_eq!(first.cmp(&second), Ordering::Greater);
    assert_eq!(second.cmp(&first), Ordering::Greater);
}

#[test]
fn features_are_written_in_lower_snake_case() {
    let names = ["node_provider", "data_center", "data_center_owner", "city", "country", "continent"];
    let all = Feature::variants();
    assert_eq!(
        all,
        vec![
            Feature::NodeProvider,
            Feature::DataCenter,
            Feature::DataCenterOwner,
            Feature::City,
            Feature::Country,
            Feature::Continent,
        ]
    );
    for (feature, name) in all.iter().zip(names) {
        assert_eq!(feature.to_string(), name);
        assert_eq!(feature.as_str(), name);
        assert_eq!(Feature::from_str(name).unwrap(), *feature);
        assert_eq!(Feature::from_str(&feature.to_string()).unwrap(), *feature);
    }
}

#[test]
fn unknown_feature_names_are_handed_back() {
    for name in ["", "City", "node provider", "data_center_", "planet"] {
        assert_eq!(Feature::from_str(name).unwrap_err().name, name);
    }
}

#[test]
fn node_features_hold_a_value_for_each_feature() {
    let empty = NodeFeatures::new();
    let uniform = NodeFeatures::new_test_feature_set("foo");
    for feature in Feature::variants() {
        assert_eq!(empty.get(&feature), None);
        assert_eq!(uniform.get(&feature), Some("foo".to_string()));
    }
    let changed = uniform.with_feature_value(&Feature::Country, "CH");
    assert_eq!(changed.get(&Feature::Country), Some("CH".to_string()));
    assert_eq!(changed.get(&Feature::City), Some("foo".to_string()));
    assert_eq!(uniform.get(&Feature::Country), Some("foo".to_string()));
    let listed = NodeFeatures::from_iter(vec![
        (Feature::City, "Zurich".to_string()),
        (Feature::Country, "DE".to_string()),
        (Feature::Country, "CH".to_string()),
    ]);
    assert_eq!(listed.get(&Feature::City), Some("Zurich".to_string()));
    assert_eq!(listed.get(&Feature::Country), Some("CH".to_string()));
    assert_eq!(listed.get(&Feature::Continent), None);
    assert_eq!(listed, NodeFeatures::new().with_feature_value(&Feature::Country, "CH").with_feature_value(&Feature::City, "Zurich"));
}

#[test]
fn nodes_are_equal_by_identity() {
    let one = Node::new_test_node(7, NodeFeatures::new_test_feature_set("a"), false);
    let other = Node::new_test_node(7, NodeFeatures::new_test_feature_set("b"), true);
    let third = Node::new_test_node(8, NodeFeatures::new_test_feature_set("a"), false);
    assert_eq!(one, other);
    assert_ne!(one, third);
    assert_eq!(one.id, PrincipalId::new_node_test_id(7));
    assert_eq!(one.get_feature(&Feature::City), "a");
    let bare = Node::new_test_node(9, NodeFeatures::new(), false);
    assert_eq!(bare.get_feature(&Feature::City), "");
}

#[test]
fn rule_messages() {
    assert_eq!(RuleViolation::DfinityOwnedNodeMissing.to_string(), "DFINITY-owned node missing");
    assert_eq!(
        RuleViolation::FeatureSuperMajority { feature: Feature::DataCenterOwner, count: 120, limit: 87 }
            .to_string(),
        "Feature 'data_center_owner' controls 120 of nodes, which is >= 87 (2/3 of all) nodes"
    );
    assert_eq!(
        RuleViolation::FeatureSuperMajority { feature: Feature::City, count: 0, limit: usize::MAX }
            .to_string(),
        format!("Feature 'city' controls 0 of nodes, which is >= {} (2/3 of all) nodes", usize::MAX)
    );
}

#[test]
fn kernel_rounds_the_tolerance_down() {
    // Of three nodes one may fail: two nodes in one hand break the tolerance.
    assert_eq!(NakamotoScore::nakamoto(&[2, 1]), (1, 2));
    assert_eq!(NakamotoScore::nakamoto(&[1, 1, 1]), (2, 2));
    // Of thirteen nodes four may fail.
    assert_eq!(NakamotoScore::nakamoto(&[4, 4, 5]), (1, 5));
    assert_eq!(NakamotoScore::nakamoto(&[4, 4, 4, 1]), (2, 8));
}

#[test]
fn adding_a_definition_step_by_step() {
    assert_eq!(first_step(true), Action::ParseKey);
    assert_eq!(first_step(false), Action::FindName);
    assert_eq!(after_key(None), Action::FindName);
    assert_eq!(
        after_key(Some("bad key".to_string())),
        Action::Refuse { message: "bad key".to_string() }
    );
    assert_eq!(after_name(false), Action::Ping);
    assert_eq!(
        after_name(true),
        Action::Refuse { message: "Definition with this name already exists".to_string() }
    );
    assert_eq!(after_ping(true), Action::Install);
    assert_eq!(
        after_ping(false),
        Action::Refuse { message: "Couldn't ping nns of that definition".to_string() }
    );
    assert_eq!(answer_of(&Action::Install), Some(Answer { status: 200, text: "success".to_string() }));
    assert_eq!(
        answer_of(&after_ping(false)),
        Some(Answer { status: 400, text: "Couldn't ping nns of that definition".to_string() })
    );
    assert_eq!(answer_of(&Action::Ping), None);
    assert_eq!(answer_of(&Action::ParseKey), None);
    assert_eq!(answer_of(&Action::FindName), None);
}
