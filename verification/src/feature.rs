//! The axes along which a committee is to be decentralized.

use vstd::prelude::*;

verus! {

/// One decentralization axis of a node: who provides it, where it stands and
/// who owns the place. The order of the variants is the order in which the
/// features are walked everywhere.
#[derive(Clone, Copy, Debug, PartialEq, Eq, Structural, PartialOrd, Ord, Hash)]
pub enum Feature {
    NodeProvider,
    DataCenter,
    DataCenterOwner,
    City,
    Country,
    Continent,
}

/// A name that stands for no feature.
#[derive(Debug)]
pub struct UnknownFeature {
    pub name: String,
}

impl Feature {
    /// All features, in their fixed order.
    pub open spec fn all() -> Seq<Feature> {
        seq![
            Feature::NodeProvider,
            Feature::DataCenter,
            Feature::DataCenterOwner,
            Feature::City,
            Feature::Country,
            Feature::Continent,
        ]
    }

    /// The place of the feature in the fixed order.
    pub open spec fn position(self) -> int {
        match self {
            Feature::NodeProvider => 0,
            Feature::DataCenter => 1,
            Feature::DataCenterOwner => 2,
            Feature::City => 3,
            Feature::Country => 4,
            Feature::Continent => 5,
        }
    }

    /// The lower-case name under which the feature is written down.
    pub open spec fn name(self) -> Seq<char> {
        match self {
            Feature::NodeProvider => "node_provider"@,
            Feature::DataCenter => "data_center"@,
            Feature::DataCenterOwner => "data_center_owner"@,
            Feature::City => "city"@,
            Feature::Country => "country"@,
            Feature::Continent => "continent"@,
        }
    }

    /// The feature that `name` stands for, if any.
    pub open spec fn parse(name: Seq<char>) -> Option<Feature> {
        if name == Feature::NodeProvider.name() {
            Some(Feature::NodeProvider)
        } else if name == Feature::DataCenter.name() {
            Some(Feature::DataCenter)
        } else if name == Feature::DataCenterOwner.name() {
            Some(Feature::DataCenterOwner)
        } else if name == Feature::City.name() {
            Some(Feature::City)
        } else if name == Feature::Country.name() {
            Some(Feature::Country)
        } else if name == Feature::Continent.name() {
            Some(Feature::Continent)
        } else {
            None
        }
    }

    /// No two features share a name: the six names differ in length.
    pub proof fn lemma_names_differ(a: Feature, b: Feature)
        ensures
            a.name() == b.name() ==> a == b,
    {
        reveal_strlit("node_provider");
        reveal_strlit("data_center");
        reveal_strlit("data_center_owner");
        reveal_strlit("city");
        reveal_strlit("country");
        reveal_strlit("continent");
        assert("node_provider"@.len() == 13);
        assert("data_center"@.len() == 11);
        assert("data_center_owner"@.len() == 17);
        assert("city"@.len() == 4);
        assert("country"@.len() == 7);
        assert("continent"@.len() == 9);
    }

    /// Every feature has its place in `all`, and `all` holds nothing else.
    pub proof fn lemma_all_is_complete(f: Feature)
        ensures
            Feature::all().len() == 6,
            0 <= f.position() < 6,
            Feature::all()[f.position()] == f,
    {
    }

    /// All features, in their fixed order.
    pub fn variants() -> (all: Vec<Feature>)
        ensures
            all@ == Feature::all(),
    {
        let mut all: Vec<Feature> = Vec::new();
        all.push(Feature::NodeProvider);
        all.push(Feature::DataCenter);
        all.push(Feature::DataCenterOwner);
        all.push(Feature::City);
        all.push(Feature::Country);
        all.push(Feature::Continent);
        assert(all@ =~= Feature::all());
        all
    }

    /// The name of the feature as a string slice.
    pub fn as_str(&self) -> (name: &'static str)
        ensures
            name@ == self.name(),
    {
        match self {
            Feature::NodeProvider => "node_provider",
            Feature::DataCenter => "data_center",
            Feature::DataCenterOwner => "data_center_owner",
            Feature::City => "city",
            Feature::Country => "country",
            Feature::Continent => "continent",
        }
    }

    /// The name under which the feature is written down.
    pub fn to_string(&self) -> (name: String)
        ensures
            name@ == self.name(),
    {
        self.as_str().to_owned()
    }

    /// The feature that is written down as `name`; any other string is
    /// handed back as unknown.
    pub fn from_str(name: &str) -> (parsed: Result<Feature, UnknownFeature>)
        ensures
            match parsed {
                Ok(feature) => Feature::parse(name@) == Some(feature),
                Err(unknown) => Feature::parse(name@) is None && unknown.name@ == name@,
            },
    {
        let given = name.to_owned();
        let all = Feature::variants();
        let mut i: usize = 0;
        while i < all.len()
            invariant
                i <= all.len(),
                all@ == Feature::all(),
                given@ == name@,
                forall|j: int| 0 <= j < i ==> Feature::all()[j].name() != name@,
            decreases all.len() - i,
        {
            let feature = all[i];
            if feature.to_string() == given {
                proof {
                    Feature::lemma_name_round_trip(feature);
                }
                return Ok(feature);
            }
            i += 1;
        }
        proof {
            assert(Feature::all()[0].name() != name@);
            assert(Feature::all()[1].name() != name@);
            assert(Feature::all()[2].name() != name@);
            assert(Feature::all()[3].name() != name@);
            assert(Feature::all()[4].name() != name@);
            assert(Feature::all()[5].name() != name@);
        }
        Err(UnknownFeature { name: given })
    }

    /// Writing a feature down and reading it back gives the feature.
    pub proof fn lemma_name_round_trip(f: Feature)
        ensures
            Feature::parse(f.name()) == Some(f),
    {
        Feature::lemma_names_differ(f, Feature::NodeProvider);
        Feature::lemma_names_differ(f, Feature::DataCenter);
        Feature::lemma_names_differ(f, Feature::DataCenterOwner);
        Feature::lemma_names_differ(f, Feature::City);
        Feature::lemma_names_differ(f, Feature::Country);
        Feature::lemma_names_differ(f, Feature::Continent);
    }
}

} // verus!
