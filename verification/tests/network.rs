use decentralization::feature::Feature;
use decentralization::network::{ChangeReason, NetworkError, Subnet, SubnetChangeRequest};
use decentralization::node::{Node, PrincipalId};
use decentralization::node_features::NodeFeatures;
use decentralization::requests::{MembershipReplaceRequest, ReplaceTarget, SubnetCreateRequest};
use decentralization::rules::{MinNakamotoCoefficients, RuleViolation};
use decentralization::score::{NakamotoScore, PerFeature};
use std::cmp::Ordering;

/// The worst coefficient as a float, with infinity for the score of no node.
fn min_of(score: &NakamotoScore) -> f64 {
    match score.score_min() {
        Some(min) => min as f64,
        None => f64::INFINITY,
    }
}

/// Generate a new Vec<Node> and override some feature values
fn nodes_with_overrides(
    feat_prefix: &str,
    node_number_start: usize,
    num_nodes: usize,
    num_dfinity_nodes: usize,
    feature_to_override: (&Feature, &[&str]),
) -> Vec<Node> {
    let mut subnet_nodes = Vec::new();
    for i in 0..num_nodes {
        let dfinity_owned = i < num_dfinity_nodes;
        let (override_feature, override_val) = feature_to_override;
        let node_features = match override_val.get(i) {
            Some(override_val) => NodeFeatures::new_test_feature_set(&format!("{} {}", feat_prefix, i))
                .with_feature_value(override_feature, override_val),
            None => NodeFeatures::new_test_feature_set(&format!("feat {}", i)),
        };
        let node = Node::new_test_node((node_number_start + i) as u64, node_features, dfinity_owned);
        subnet_nodes.push(node);
    }
    subnet_nodes
}

/// Generate a new test subnet with feature overrides
fn subnet_with_overrides(
    subnet_num: u64,
    node_number_start: usize,
    num_nodes: usize,
    num_dfinity_nodes: usize,
    feature_to_override: (&Feature, &[&str]),
) -> Subnet {
    Subnet {
        id: PrincipalId::new_subnet_test_id(subnet_num),
        nodes: nodes_with_overrides(
            "feat",
            node_number_start,
            num_nodes,
            num_dfinity_nodes,
            feature_to_override,
        ),
    }
}

fn plain_subnet(subnet_num: u64, num_nodes: usize, num_dfinity_nodes: usize) -> Subnet {
    let no_override: &[&str] = &[];
    subnet_with_overrides(subnet_num, 0, num_nodes, num_dfinity_nodes, (&Feature::City, no_override))
}

#[test]
fn test_business_rules_fail() {
    // A subnet without nodes is below the size from which a DFINITY-owned node
    // is asked for
    plain_subnet(0, 0, 0).check_business_rules().unwrap();
    // If there are no DFINITY-owned node in a small subnet ==> fail with an
    // expected error message
    assert_eq!(
        plain_subnet(0, 1, 0).check_business_rules().unwrap_err().to_string(),
        "DFINITY-owned node missing".to_string()
    );
    assert_eq!(
        plain_subnet(0, 2, 0).check_business_rules().unwrap_err().to_string(),
        "DFINITY-owned node missing".to_string()
    );
}

#[test]
fn subnet_usa_dominance() {
    let subnet_initial = subnet_with_overrides(
        0,
        0,
        13,
        1,
        (
            &Feature::Country,
            &[
                "US", "US", "US", "US", "US", "US", "US", "US", "US", "CH", "BE", "SG", "SI",
            ],
        ),
    );
    assert_eq!(
        subnet_initial.check_business_rules().unwrap_err().to_string(),
        "Feature 'country' controls 9 of nodes, which is >= 9 (2/3 of all) nodes".to_string()
    );
    let nodes_available = nodes_with_overrides("spare", 13, 3, 0, (&Feature::Country, &["US", "RO", "JP"]));

    println!(
        "initial {:?} Countries {:?}",
        subnet_initial,
        subnet_initial
            .nodes
            .iter()
            .map(|n| n.get_feature(&Feature::Country))
            .collect::<Vec<_>>()
    );

    let subnet_change_req = SubnetChangeRequest::new(subnet_initial, nodes_available, Vec::new(), Vec::new(), 0);
    let subnet_change = subnet_change_req.optimize(2).unwrap();
    let optimized_subnet = subnet_change.after();

    let mut countries_after = optimized_subnet
        .nodes
        .iter()
        .map(|n| n.get_feature(&Feature::Country))
        .collect::<Vec<_>>();
    countries_after.sort();

    println!("optimized {:?} Countries {:?}", optimized_subnet, countries_after);
    assert_eq!(min_of(&optimized_subnet.nakamoto_score()), 1.);

    // Two US nodes were removed
    assert_eq!(
        countries_after,
        vec!["BE", "CH", "JP", "RO", "SG", "SI", "US", "US", "US", "US", "US", "US", "US"]
    );
}

#[test]
fn subnet_optimize_node_providers() {
    let subnet_initial = subnet_with_overrides(
        0,
        0,
        7,
        1,
        (
            &Feature::NodeProvider,
            &["NP1", "NP2", "NP2", "NP2", "NP3", "NP4", "NP5"],
        ),
    );
    assert_eq!(
        subnet_initial.check_business_rules().unwrap_err().to_string(),
        "A single Node Provider can halt a subnet".to_string()
    );
    let nodes_available = nodes_with_overrides("spare", 7, 2, 0, (&Feature::NodeProvider, &["NP6", "NP7"]));

    println!(
        "initial {:?} NPs {:?}",
        subnet_initial,
        subnet_initial
            .nodes
            .iter()
            .map(|n| n.get_feature(&Feature::NodeProvider))
            .collect::<Vec<_>>()
    );

    let subnet_change_req = SubnetChangeRequest::new(subnet_initial, nodes_available, Vec::new(), Vec::new(), 0);
    let subnet_change = subnet_change_req.optimize(2).unwrap();
    let optimized_subnet = subnet_change.after();

    let mut nps_after = optimized_subnet
        .nodes
        .iter()
        .map(|n| n.get_feature(&Feature::NodeProvider))
        .collect::<Vec<_>>();
    nps_after.sort();

    println!("optimized {:?} NPs {:?}", optimized_subnet, nps_after);
    assert_eq!(min_of(&optimized_subnet.nakamoto_score()), 3.);

    // Check that the selected nodes are providing the maximum uniformness (use all
    // NPs)
    assert_eq!(nps_after, vec!["NP1", "NP2", "NP3", "NP4", "NP5", "NP6", "NP7"]);
}

#[test]
fn subnet_optimize_prefer_non_dfinity() {
    let subnet_initial = subnet_with_overrides(
        0,
        0,
        7,
        1,
        (
            &Feature::NodeProvider,
            &["NP1", "NP2", "NP2", "NP3", "NP4", "NP4", "NP5"],
        ),
    );
    subnet_initial.check_business_rules().unwrap();

    // There are 2 spare nodes, but both are DFINITY
    let nodes_available = nodes_with_overrides("spare", 7, 2, 2, (&Feature::NodeProvider, &["NP6", "NP7"]));

    println!(
        "initial {:?} NPs {:?}",
        subnet_initial,
        subnet_initial
            .nodes
            .iter()
            .map(|n| n.get_feature(&Feature::NodeProvider))
            .collect::<Vec<_>>()
    );

    let subnet_change_req = SubnetChangeRequest::new(subnet_initial, nodes_available, Vec::new(), Vec::new(), 0);
    let subnet_change = subnet_change_req.optimize(2).unwrap();
    let optimized_subnet = subnet_change.after();

    let mut nps_after = optimized_subnet
        .nodes
        .iter()
        .map(|n| n.get_feature(&Feature::NodeProvider))
        .collect::<Vec<_>>();
    nps_after.sort();

    println!("optimized {:?} NPs {:?}", optimized_subnet, nps_after);
    // Both spare nodes raise the worst coefficient, so both come in
    assert_eq!(min_of(&optimized_subnet.nakamoto_score()), 3.);
    assert_eq!(nps_after, vec!["NP1", "NP2", "NP3", "NP4", "NP5", "NP6", "NP7"]);
}

fn usa_subnet() -> Subnet {
    subnet_with_overrides(
        0,
        0,
        13,
        1,
        (
            &Feature::Country,
            &[
                "US", "US", "US", "US", "US", "US", "US", "US", "US", "CH", "BE", "SG", "SI",
            ],
        ),
    )
}

fn usa_spares() -> Vec<Node> {
    nodes_with_overrides("spare", 13, 3, 0, (&Feature::Country, &["US", "RO", "JP"]))
}

fn ids(numbers: &[u64]) -> Vec<PrincipalId> {
    numbers.iter().map(|n| PrincipalId(*n)).collect()
}

fn ids_in(subnet: &Subnet) -> Vec<PrincipalId> {
    subnet.nodes.iter().map(|n| n.id).collect()
}

#[test]
fn super_majority_is_reported_with_count_and_limit() {
    assert_eq!(
        usa_subnet().check_business_rules().unwrap_err(),
        RuleViolation::FeatureSuperMajority { feature: Feature::Country, count: 9, limit: 9 }
    );
    // Eight of thirteen are below two thirds.
    let eight = subnet_with_overrides(
        0,
        0,
        13,
        1,
        (
            &Feature::Country,
            &["US", "US", "US", "US", "US", "US", "US", "US", "DE", "CH", "BE", "SG", "SI"],
        ),
    );
    eight.check_business_rules().unwrap();
}

#[test]
fn minimum_coefficients_are_checked_last() {
    let subnet = plain_subnet(0, 7, 1);
    let zero = PerFeature {
        node_provider: 0,
        data_center: 0,
        data_center_owner: 0,
        city: 0,
        country: 0,
        continent: 0,
    };
    let modest = MinNakamotoCoefficients { coefficients: PerFeature { node_provider: 3, country: 2, ..zero } };
    subnet.check_business_rules_with(&Some(modest)).unwrap();
    let demanding = MinNakamotoCoefficients { coefficients: PerFeature { city: 4, continent: 5, ..zero } };
    let broken = subnet.check_business_rules_with(&Some(demanding)).unwrap_err();
    assert_eq!(broken, RuleViolation::BelowMinimumCoefficient { feature: Feature::City, have: 3, want: 4 });
    assert_eq!(broken.to_string(), "Feature 'city' has the coefficient 3, which is below 4");
    // The other rules come first.
    assert_eq!(
        plain_subnet(0, 7, 0).check_business_rules_with(&Some(demanding)).unwrap_err(),
        RuleViolation::DfinityOwnedNodeMissing
    );
}

#[test]
fn single_node_provider_rule_starts_at_three_nodes() {
    // With two nodes every node provider holds more than a third.
    let two = subnet_with_overrides(0, 0, 2, 1, (&Feature::NodeProvider, &["NP1", "NP2"]));
    two.check_business_rules().unwrap();
    let four = subnet_with_overrides(0, 0, 4, 1, (&Feature::NodeProvider, &["NP1", "NP1", "NP2", "NP3"]));
    assert_eq!(four.check_business_rules().unwrap_err(), RuleViolation::SingleNodeProviderCanHalt);
    // Two of three are two thirds, which is reported first.
    let three = subnet_with_overrides(0, 0, 3, 1, (&Feature::NodeProvider, &["NP1", "NP1", "NP2"]));
    assert_eq!(
        three.check_business_rules().unwrap_err(),
        RuleViolation::FeatureSuperMajority { feature: Feature::NodeProvider, count: 2, limit: 2 }
    );
}

#[test]
fn single_node_provider_can_halt_three_of_seven() {
    let subnet = subnet_with_overrides(
        0,
        0,
        7,
        1,
        (&Feature::NodeProvider, &["NP1", "NP2", "NP2", "NP2", "NP3", "NP4", "NP5"]),
    );
    assert_eq!(subnet.check_business_rules().unwrap_err(), RuleViolation::SingleNodeProviderCanHalt);
    assert_eq!(
        RuleViolation::SingleNodeProviderCanHalt.to_string(),
        "A single Node Provider can halt a subnet"
    );
}

#[test]
fn extend_fails_without_enough_candidates() {
    let subnet = plain_subnet(0, 7, 1);
    let pool = nodes_with_overrides("spare", 7, 2, 0, (&Feature::NodeProvider, &["NP6", "NP7"]));
    let error = subnet.new_extended_subnet(3, &pool).unwrap_err();
    assert_eq!(error, NetworkError::InsufficientCandidates { needed: 3, have: 2 });
    assert_eq!(error.to_string(), "Not enough candidates: needed 3, have 2");
}

#[test]
fn extend_by_nothing_changes_nothing() {
    let subnet = plain_subnet(0, 7, 1);
    let pool = nodes_with_overrides("spare", 7, 2, 0, (&Feature::NodeProvider, &["NP6", "NP7"]));
    let same = subnet.new_extended_subnet(0, &pool).unwrap();
    assert_eq!(ids_in(&same), ids(&[0, 1, 2, 3, 4, 5, 6]));
    assert_eq!(same.id, subnet.id);
}

#[test]
fn extend_prefers_the_candidate_with_the_better_score() {
    let subnet = subnet_with_overrides(
        0,
        0,
        4,
        1,
        (&Feature::Country, &["US", "US", "CH", "DE"]),
    );
    // The first candidate adds a third node in the US, the second a new country.
    let pool = nodes_with_overrides("spare", 4, 2, 0, (&Feature::Country, &["US", "FR"]));
    let extended = subnet.new_extended_subnet(1, &pool).unwrap();
    assert_eq!(ids_in(&extended), ids(&[0, 1, 2, 3, 5]));
    let both = subnet.new_extended_subnet(2, &pool).unwrap();
    assert_eq!(ids_in(&both), ids(&[0, 1, 2, 3, 5, 4]));
}

#[test]
fn extend_prefers_a_node_that_dfinity_does_not_own_among_equals() {
    let subnet = plain_subnet(0, 12, 1);
    // Both candidates are new in every feature; DFINITY owns the first.
    let pool = nodes_with_overrides("spare", 12, 2, 1, (&Feature::NodeProvider, &["NP A", "NP B"]));
    let extended = subnet.new_extended_subnet(1, &pool).unwrap();
    assert_eq!(extended.nodes.last().unwrap().id, PrincipalId(13));
    assert!(!extended.nodes.last().unwrap().dfinity_owned);
    // Of equals that DFINITY does not own the earliest is taken.
    let pool = nodes_with_overrides("spare", 12, 2, 0, (&Feature::NodeProvider, &["NP A", "NP B"]));
    let extended = subnet.new_extended_subnet(1, &pool).unwrap();
    assert_eq!(extended.nodes.last().unwrap().id, PrincipalId(12));
}

#[test]
fn optimize_reports_what_left_and_what_came() {
    let subnet_initial = usa_subnet();
    let before = ids_in(&subnet_initial);
    let request = SubnetChangeRequest::new(subnet_initial, usa_spares(), Vec::new(), Vec::new(), 0);
    let change = request.optimize(2).unwrap();
    assert_eq!(change.reason, ChangeReason::Optimized);
    assert_eq!(ids_in(&change.before()), before);
    // The DFINITY-owned node 0 stays: without it the subnet would break a rule.
    assert_eq!(change.removed, ids(&[1, 2]));
    assert_eq!(change.added, ids(&[14, 15]));
    assert_eq!(ids_in(&change.after()), ids(&[0, 3, 4, 5, 6, 7, 8, 9, 10, 11, 12, 14, 15]));
    assert_eq!(change.violation, None);
    // The subnet does not score worse than before.
    let after = change.after().nakamoto_score();
    let initial = change.before().nakamoto_score();
    assert_eq!(after.cmp(&initial), Ordering::Greater);
    assert!(after > initial);
}

#[test]
fn optimize_keeps_pinned_nodes() {
    let pins = ids(&[1, 2, 3, 99]);
    let request = SubnetChangeRequest::new(usa_subnet(), usa_spares(), pins.clone(), Vec::new(), 0);
    let change = request.optimize(2).unwrap();
    let after = ids_in(&change.after());
    for pin in ids(&[1, 2, 3]) {
        assert!(after.contains(&pin));
    }
    assert_eq!(change.removed, ids(&[4, 5]));
    assert_eq!(change.added, ids(&[14, 15]));
}

#[test]
fn optimize_leaves_excluded_candidates_out() {
    let request = SubnetChangeRequest::new(usa_subnet(), usa_spares(), Vec::new(), ids(&[14]), 0);
    let change = request.optimize(2).unwrap();
    // Only the candidate from Japan helps; the one from the US changes nothing for the better.
    let after = ids_in(&change.after());
    assert!(after.contains(&PrincipalId(15)));
    assert!(!after.contains(&PrincipalId(14)));
    assert_eq!(change.after().nodes.len(), 13);
}

#[test]
fn optimize_without_candidates_changes_nothing() {
    let request = SubnetChangeRequest::new(usa_subnet(), Vec::new(), Vec::new(), Vec::new(), 0);
    let change = request.optimize(2).unwrap();
    assert_eq!(change.reason, ChangeReason::Unchanged);
    assert_eq!(ids_in(&change.after()), ids_in(&change.before()));
    assert!(change.removed.is_empty());
    assert!(change.added.is_empty());
    // The rule that the subnet breaks is handed to the caller.
    assert_eq!(
        change.violation,
        Some(RuleViolation::FeatureSuperMajority { feature: Feature::Country, count: 9, limit: 9 })
    );
    let after = change.after().nakamoto_score();
    assert_eq!(after.cmp(&change.before().nakamoto_score()), Ordering::Equal);
}

#[test]
fn optimize_with_no_step_changes_nothing() {
    let request = SubnetChangeRequest::new(usa_subnet(), usa_spares(), Vec::new(), Vec::new(), 0);
    let change = request.evaluate().unwrap();
    assert_eq!(change.reason, ChangeReason::Unchanged);
    assert_eq!(ids_in(&change.after()), ids_in(&change.before()));
}

#[test]
fn evaluate_replaces_as_many_as_the_request_says() {
    let request = SubnetChangeRequest::new(usa_subnet(), usa_spares(), Vec::new(), Vec::new(), 1);
    let change = request.evaluate().unwrap();
    assert_eq!(change.removed, ids(&[1]));
    assert_eq!(change.added, ids(&[14]));
    // Eight nodes in the US are below two thirds of thirteen.
    assert_eq!(change.violation, None);
}

#[test]
fn optimize_rejects_a_candidate_that_is_a_member() {
    let pool = nodes_with_overrides("spare", 12, 2, 0, (&Feature::Country, &["RO", "JP"]));
    let request = SubnetChangeRequest::new(usa_subnet(), pool, Vec::new(), Vec::new(), 0);
    let error = request.optimize(1).unwrap_err();
    assert_eq!(error, NetworkError::UnknownNode { id: PrincipalId(12) });
    assert_eq!(error.to_string(), "Unknown node 12");
}

#[test]
fn replace_lets_listed_nodes_go_and_fills_up() {
    let request = SubnetChangeRequest::new(usa_subnet(), usa_spares(), Vec::new(), Vec::new(), 0);
    let change = request.replace(&ids(&[9, 3]), false).unwrap();
    assert_eq!(change.reason, ChangeReason::Replaced);
    assert_eq!(change.removed, ids(&[3, 9]));
    // The candidates from Romania and Japan score better than the one from the US.
    assert_eq!(change.added, ids(&[14, 15]));
    assert_eq!(ids_in(&change.after()), ids(&[0, 1, 2, 4, 5, 6, 7, 8, 10, 11, 12, 14, 15]));
    assert_eq!(change.violation, None);
}

#[test]
fn replace_heals_unhealthy_members() {
    let request = SubnetChangeRequest::new(usa_subnet(), usa_spares(), Vec::new(), Vec::new(), 0)
        .with_unhealthy_nodes(ids(&[5, 77]));
    let untouched = request.replace(&Vec::new(), false).unwrap();
    assert!(untouched.removed.is_empty());
    assert_eq!(ids_in(&untouched.after()), ids_in(&untouched.before()));
    let healed = request.replace(&ids(&[1]), true).unwrap();
    assert_eq!(healed.removed, ids(&[1, 5]));
    assert_eq!(healed.added, ids(&[14, 15]));
}

#[test]
fn replace_refuses_pinned_and_unknown_nodes() {
    let request = SubnetChangeRequest::new(usa_subnet(), usa_spares(), ids(&[2]), Vec::new(), 0)
        .with_unhealthy_nodes(ids(&[2]));
    let pinned = request.replace(&ids(&[1, 2]), false).unwrap_err();
    assert_eq!(pinned, NetworkError::PinnedAndRemoved { id: PrincipalId(2) });
    assert_eq!(pinned.to_string(), "Node 2 is pinned and was to be removed");
    assert_eq!(
        request.replace(&ids(&[40, 2]), false).unwrap_err(),
        NetworkError::UnknownNode { id: PrincipalId(40) }
    );
    assert_eq!(
        request.replace(&Vec::new(), true).unwrap_err(),
        NetworkError::PinnedAndRemoved { id: PrincipalId(2) }
    );
}

#[test]
fn replace_fails_without_enough_candidates() {
    let request = SubnetChangeRequest::new(usa_subnet(), usa_spares(), Vec::new(), ids(&[13, 14]), 0);
    assert_eq!(
        request.replace(&ids(&[1, 2]), false).unwrap_err(),
        NetworkError::InsufficientCandidates { needed: 2, have: 1 }
    );
}

#[test]
fn replace_attaches_the_rule_that_is_broken_afterwards() {
    let wanted = MinNakamotoCoefficients {
        coefficients: PerFeature {
            node_provider: 0,
            data_center: 0,
            data_center_owner: 0,
            city: 0,
            country: 2,
            continent: 0,
        },
    };
    let request = SubnetChangeRequest::new(usa_subnet(), usa_spares(), Vec::new(), Vec::new(), 0)
        .with_min_nakamoto_coefficients(Some(wanted));
    let change = request.replace(&ids(&[1]), false).unwrap();
    assert_eq!(
        change.violation,
        Some(RuleViolation::BelowMinimumCoefficient { feature: Feature::Country, have: 1, want: 2 })
    );
}

#[test]
fn requests_say_what_they_ask_for() {
    let request = MembershipReplaceRequest {
        target: ReplaceTarget::Nodes { nodes: ids(&[4, 5]), motivation: "broken disks".to_string() },
        heal: true,
        optimize: None,
        exclude: None,
        include_nodes: Some(ids(&[1])),
        min_nakamoto_coefficients: None,
    };
    assert_eq!(request.listed_nodes(), ids(&[4, 5]));
    assert_eq!(request.optimize_count(), 0);
    assert_eq!(request.pinned(), ids(&[1]));
    let whole = MembershipReplaceRequest {
        target: ReplaceTarget::Subnet(PrincipalId(3)),
        heal: false,
        optimize: Some(2),
        exclude: None,
        include_nodes: None,
        min_nakamoto_coefficients: None,
    };
    assert!(whole.listed_nodes().is_empty());
    assert_eq!(whole.optimize_count(), 2);
    assert!(whole.pinned().is_empty());
    assert_eq!(SubnetCreateRequest { size: 13 }.size, 13);
}
