//! Nodes and their identities.

use crate::feature::Feature;
use crate::node_features::{FeatureValues, NodeFeatures};
use vstd::prelude::*;
use vstd::std_specs::cmp::PartialEqSpecImpl;

verus! {

/// An opaque identity of a node or of a subnet. The library asks of two
/// identities only whether they are the same.
#[derive(Clone, Copy, Debug, PartialEq, Eq, Structural, PartialOrd, Ord, Hash)]
pub struct PrincipalId(pub u64);

impl PrincipalId {
    /// The identity of the `n`-th subnet of a test.
    pub fn new_subnet_test_id(n: u64) -> (id: PrincipalId)
        ensures
            id == PrincipalId(n),
    {
        PrincipalId(n)
    }

    /// The identity of the `n`-th node of a test.
    pub fn new_node_test_id(n: u64) -> (id: PrincipalId)
        ensures
            id == PrincipalId(n),
    {
        PrincipalId(n)
    }
}

/// A node: who it is, what is known of it along each feature, and whether
/// DFINITY owns it. Two nodes are equal when they have the same identity.
#[derive(Debug)]
pub struct Node {
    pub id: PrincipalId,
    pub features: NodeFeatures,
    pub dfinity_owned: bool,
}

/// The mathematical content of a node.
pub struct NodeView {
    pub id: PrincipalId,
    pub features: FeatureValues,
    pub dfinity_owned: bool,
}

impl View for Node {
    type V = NodeView;

    open spec fn view(&self) -> NodeView {
        NodeView { id: self.id, features: self.features@, dfinity_owned: self.dfinity_owned }
    }
}

impl Clone for Node {
    fn clone(&self) -> (copy: Self)
        ensures
            copy@ == self@,
    {
        Node { id: self.id, features: self.features.clone(), dfinity_owned: self.dfinity_owned }
    }
}

impl PartialEq for Node {
    fn eq(&self, other: &Self) -> (equal: bool) {
        self.id == other.id
    }
}

impl PartialEqSpecImpl for Node {
    open spec fn obeys_eq_spec() -> bool {
        true
    }

    open spec fn eq_spec(&self, other: &Self) -> bool {
        self.id == other.id
    }
}

impl Eq for Node {

}

/// What a list of nodes holds as mathematical values.
pub open spec fn views(nodes: Seq<Node>) -> Seq<NodeView> {
    Seq::new(nodes.len(), |i: int| nodes[i]@)
}

/// The features of the nodes, node by node.
pub open spec fn features_of(nodes: Seq<NodeView>) -> Seq<FeatureValues> {
    Seq::new(nodes.len(), |i: int| nodes[i].features)
}

/// The identities of the nodes, node by node.
pub open spec fn ids_of(nodes: Seq<NodeView>) -> Seq<PrincipalId> {
    Seq::new(nodes.len(), |i: int| nodes[i].id)
}

/// Whether one of the nodes has the identity `id`.
pub open spec fn has_id(nodes: Seq<NodeView>, id: PrincipalId) -> bool {
    exists|i: int| 0 <= i < nodes.len() && #[trigger] nodes[i].id == id
}

/// Whether DFINITY owns one of the nodes.
pub open spec fn has_dfinity(nodes: Seq<NodeView>) -> bool {
    exists|i: int| 0 <= i < nodes.len() && #[trigger] nodes[i].dfinity_owned
}

impl Node {
    /// The `node_number`-th node of a test.
    pub fn new_test_node(node_number: u64, features: NodeFeatures, dfinity_owned: bool) -> (node:
        Node)
        ensures
            node@ == (NodeView {
                id: PrincipalId(node_number),
                features: features@,
                dfinity_owned,
            }),
    {
        Node { id: PrincipalId::new_node_test_id(node_number), features, dfinity_owned }
    }

    /// The value of the node for `feature`; the empty string where it is not
    /// known.
    pub fn get_feature(&self, feature: &Feature) -> (value: String)
        ensures
            value@ == match self@.features.get(*feature) {
                Some(text) => text,
                None => Seq::empty(),
            },
    {
        match self.features.get(feature) {
            Some(value) => value,
            None => String::new(),
        }
    }
}

/// The place of the first node with the identity `id`, if there is one.
pub fn position_of(nodes: &Vec<Node>, id: PrincipalId) -> (found: Option<usize>)
    ensures
        match found {
            Some(at) => at < nodes@.len() && nodes@[at as int].id == id && forall|j: int|
                0 <= j < at ==> nodes@[j].id != id,
            None => !has_id(views(nodes@), id),
        },
{
    let mut i: usize = 0;
    while i < nodes.len()
        invariant
            i <= nodes.len(),
            forall|j: int| 0 <= j < i ==> nodes@[j].id != id,
        decreases nodes.len() - i,
    {
        if nodes[i].id == id {
            return Some(i);
        }
        i += 1;
    }
    None
}

/// Whether `id` is one of `ids`.
pub fn is_listed(ids: &Vec<PrincipalId>, id: PrincipalId) -> (listed: bool)
    ensures
        listed == ids@.contains(id),
{
    let mut i: usize = 0;
    while i < ids.len()
        invariant
            i <= ids.len(),
            forall|j: int| 0 <= j < i ==> ids@[j] != id,
        decreases ids.len() - i,
    {
        if ids[i] == id {
            return true;
        }
        i += 1;
    }
    false
}

/// Whether DFINITY owns one of the nodes.
pub fn any_dfinity_owned(nodes: &Vec<Node>) -> (found: bool)
    ensures
        found == has_dfinity(views(nodes@)),
{
    let mut i: usize = 0;
    while i < nodes.len()
        invariant
            i <= nodes.len(),
            forall|j: int| 0 <= j < i ==> !nodes@[j].dfinity_owned,
        decreases nodes.len() - i,
    {
        if nodes[i].dfinity_owned {
            assert(views(nodes@)[i as int].dfinity_owned);
            return true;
        }
        i += 1;
    }
    assert forall|j: int| 0 <= j < views(nodes@).len() implies !(#[trigger] views(
        nodes@,
    )[j]).dfinity_owned by {
        assert(!nodes@[j].dfinity_owned);
    }
    false
}

/// Copies of the nodes, without the one at `skip`.
pub(crate) fn without_node(nodes: &Vec<Node>, skip: usize) -> (rest: Vec<Node>)
    requires
        skip < nodes@.len(),
    ensures
        views(rest@) == views(nodes@).remove(skip as int),
{
    let mut rest: Vec<Node> = Vec::new();
    let mut i: usize = 0;
    while i < nodes.len()
        invariant
            i <= nodes.len(),
            skip < nodes@.len(),
            rest@.len() == if i <= skip {
                i as int
            } else {
                i - 1
            },
            forall|j: int| 0 <= j < rest@.len() ==> rest@[j]@ == if j < skip {
                nodes@[j]@
            } else {
                nodes@[j + 1]@
            },
        decreases nodes.len() - i,
    {
        if i != skip {
            rest.push(nodes[i].clone());
        }
        i += 1;
    }
    assert(views(rest@) =~= views(nodes@).remove(skip as int));
    rest
}

/// Copies of the nodes, followed by a copy of `extra`.
pub fn with_node(nodes: &Vec<Node>, extra: &Node) -> (more: Vec<Node>)
    ensures
        views(more@) == views(nodes@).push(extra@),
{
    let mut more: Vec<Node> = Vec::new();
    let mut i: usize = 0;
    while i < nodes.len()
        invariant
            i <= nodes.len(),
            more@.len() == i,
            forall|j: int| 0 <= j < i ==> more@[j]@ == nodes@[j]@,
        decreases nodes.len() - i,
    {
        more.push(nodes[i].clone());
        i += 1;
    }
    more.push(extra.clone());
    assert(views(more@) =~= views(nodes@).push(extra@));
    more
}

/// Copies of the nodes.
pub fn copy_nodes(nodes: &Vec<Node>) -> (copy: Vec<Node>)
    ensures
        views(copy@) == views(nodes@),
{
    let mut copy: Vec<Node> = Vec::new();
    let mut i: usize = 0;
    while i < nodes.len()
        invariant
            i <= nodes.len(),
            copy@.len() == i,
            forall|j: int| 0 <= j < i ==> copy@[j]@ == nodes@[j]@,
        decreases nodes.len() - i,
    {
        copy.push(nodes[i].clone());
        i += 1;
    }
    assert(views(copy@) =~= views(nodes@));
    copy
}

} // verus!
