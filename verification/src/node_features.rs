//! What is known of one node along each feature.

use crate::feature::Feature;
use vstd::prelude::*;

verus! {

/// The value of a node for each feature, as far as it is known. A feature
/// without a value stands for an actor of its own: two nodes that both lack
/// a value never count as one actor.
#[derive(Debug, PartialEq, Eq)]
pub struct NodeFeatures {
    pub node_provider: Option<String>,
    pub data_center: Option<String>,
    pub data_center_owner: Option<String>,
    pub city: Option<String>,
    pub country: Option<String>,
    pub continent: Option<String>,
}

/// The mathematical content of a `NodeFeatures`: for each feature its text, or
/// nothing.
pub struct FeatureValues {
    pub node_provider: Option<Seq<char>>,
    pub data_center: Option<Seq<char>>,
    pub data_center_owner: Option<Seq<char>>,
    pub city: Option<Seq<char>>,
    pub country: Option<Seq<char>>,
    pub continent: Option<Seq<char>>,
}

/// The text of a value that may be missing.
pub open spec fn text_of(value: Option<String>) -> Option<Seq<char>> {
    match value {
        Some(text) => Some(text@),
        None => None,
    }
}

impl FeatureValues {
    /// The value for `feature`.
    pub open spec fn get(self, feature: Feature) -> Option<Seq<char>> {
        match feature {
            Feature::NodeProvider => self.node_provider,
            Feature::DataCenter => self.data_center,
            Feature::DataCenterOwner => self.data_center_owner,
            Feature::City => self.city,
            Feature::Country => self.country,
            Feature::Continent => self.continent,
        }
    }

    /// These values with the one for `feature` replaced.
    pub open spec fn with(self, feature: Feature, value: Option<Seq<char>>) -> FeatureValues {
        match feature {
            Feature::NodeProvider => FeatureValues { node_provider: value, ..self },
            Feature::DataCenter => FeatureValues { data_center: value, ..self },
            Feature::DataCenterOwner => FeatureValues { data_center_owner: value, ..self },
            Feature::City => FeatureValues { city: value, ..self },
            Feature::Country => FeatureValues { country: value, ..self },
            Feature::Continent => FeatureValues { continent: value, ..self },
        }
    }

    /// No value for any feature.
    pub open spec fn none() -> FeatureValues {
        FeatureValues {
            node_provider: None,
            data_center: None,
            data_center_owner: None,
            city: None,
            country: None,
            continent: None,
        }
    }

    /// The same value for every feature.
    pub open spec fn uniform(value: Seq<char>) -> FeatureValues {
        FeatureValues {
            node_provider: Some(value),
            data_center: Some(value),
            data_center_owner: Some(value),
            city: Some(value),
            country: Some(value),
            continent: Some(value),
        }
    }

    /// The values after the first `upto` of `pairs` were written one after
    /// the other over `self`: a later pair for a feature replaces an earlier.
    pub open spec fn written(self, pairs: Seq<(Feature, Seq<char>)>, upto: int) -> FeatureValues
        decreases upto,
    {
        if upto <= 0 {
            self
        } else {
            self.written(pairs, upto - 1).with(pairs[upto - 1].0, Some(pairs[upto - 1].1))
        }
    }
}

/// What `pairs` hold as mathematical values.
pub open spec fn pairs_view(pairs: Seq<(Feature, String)>) -> Seq<(Feature, Seq<char>)> {
    Seq::new(pairs.len(), |i: int| (pairs[i].0, pairs[i].1@))
}

impl View for NodeFeatures {
    type V = FeatureValues;

    open spec fn view(&self) -> FeatureValues {
        FeatureValues {
            node_provider: text_of(self.node_provider),
            data_center: text_of(self.data_center),
            data_center_owner: text_of(self.data_center_owner),
            city: text_of(self.city),
            country: text_of(self.country),
            continent: text_of(self.continent),
        }
    }
}

/// A copy of a value that may be missing.
fn copy_of(value: &Option<String>) -> (copy: Option<String>)
    ensures
        text_of(copy) == text_of(*value),
{
    match value {
        Some(text) => Some(text.clone()),
        None => None,
    }
}

impl Clone for NodeFeatures {
    fn clone(&self) -> (copy: Self)
        ensures
            copy@ == self@,
    {
        NodeFeatures {
            node_provider: copy_of(&self.node_provider),
            data_center: copy_of(&self.data_center),
            data_center_owner: copy_of(&self.data_center_owner),
            city: copy_of(&self.city),
            country: copy_of(&self.country),
            continent: copy_of(&self.continent),
        }
    }
}

impl NodeFeatures {
    /// Features of which nothing is known.
    pub fn new() -> (empty: Self)
        ensures
            empty@ == FeatureValues::none(),
    {
        NodeFeatures {
            node_provider: None,
            data_center: None,
            data_center_owner: None,
            city: None,
            country: None,
            continent: None,
        }
    }

    /// The value for `feature`, if it is known.
    pub fn get(&self, feature: &Feature) -> (value: Option<String>)
        ensures
            text_of(value) == self@.get(*feature),
    {
        match feature {
            Feature::NodeProvider => copy_of(&self.node_provider),
            Feature::DataCenter => copy_of(&self.data_center),
            Feature::DataCenterOwner => copy_of(&self.data_center_owner),
            Feature::City => copy_of(&self.city),
            Feature::Country => copy_of(&self.country),
            Feature::Continent => copy_of(&self.continent),
        }
    }

    /// Sets the value for `feature`.
    pub fn insert(&mut self, feature: Feature, value: String)
        ensures
            final(self)@ == old(self)@.with(feature, Some(value@)),
    {
        match feature {
            Feature::NodeProvider => {
                self.node_provider = Some(value);
            },
            Feature::DataCenter => {
                self.data_center = Some(value);
            },
            Feature::DataCenterOwner => {
                self.data_center_owner = Some(value);
            },
            Feature::City => {
                self.city = Some(value);
            },
            Feature::Country => {
                self.country = Some(value);
            },
            Feature::Continent => {
                self.continent = Some(value);
            },
        }
    }

    /// Features that all have the value `value`.
    pub fn new_test_feature_set(value: &str) -> (uniform: Self)
        ensures
            uniform@ == FeatureValues::uniform(value@),
    {
        let mut result = NodeFeatures::new();
        let all = Feature::variants();
        let mut i: usize = 0;
        while i < all.len()
            invariant
                i <= all.len(),
                all@ == Feature::all(),
                forall|j: int| 0 <= j < i ==> result@.get(Feature::all()[j]) == Some(value@),
                forall|j: int| i <= j < 6 ==> result@.get(Feature::all()[j]).is_none(),
            decreases all.len() - i,
        {
            result.insert(all[i], value.to_owned());
            i += 1;
        }
        proof {
            assert(result@.get(Feature::all()[0]) == Some(value@));
            assert(result@.get(Feature::all()[1]) == Some(value@));
            assert(result@.get(Feature::all()[2]) == Some(value@));
            assert(result@.get(Feature::all()[3]) == Some(value@));
            assert(result@.get(Feature::all()[4]) == Some(value@));
            assert(result@.get(Feature::all()[5]) == Some(value@));
        }
        result
    }

    /// A copy of these features in which `feature` has the value `value`.
    pub fn with_feature_value(&self, feature: &Feature, value: &str) -> (changed: Self)
        ensures
            changed@ == self@.with(*feature, Some(value@)),
    {
        let mut changed = self.clone();
        changed.insert(*feature, value.to_owned());
        changed
    }

    /// The features that `pairs` give: each pair sets the value of its
    /// feature, and the last pair for a feature stands.
    pub fn from_iter(pairs: Vec<(Feature, String)>) -> (features: Self)
        ensures
            features@ == FeatureValues::none().written(pairs_view(pairs@), pairs@.len() as int),
    {
        let mut features = NodeFeatures::new();
        let mut i: usize = 0;
        while i < pairs.len()
            invariant
                i <= pairs.len(),
                features@ == FeatureValues::none().written(pairs_view(pairs@), i as int),
            decreases pairs.len() - i,
        {
            let feature = pairs[i].0;
            let value = pairs[i].1.clone();
            features.insert(feature, value);
            i += 1;
        }
        features
    }
}

} // verus!
