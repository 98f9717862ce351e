//! The requests by which a caller asks for a change of membership.

use crate::node::PrincipalId;
use crate::rules::MinNakamotoCoefficients;
use vstd::prelude::*;

verus! {

/// What a replacement is aimed at.
#[derive(Debug)]
pub enum ReplaceTarget {
    /// Subnet targeted for replacements
    Subnet(PrincipalId),
    /// Nodes on the same subnet that need to be replaced for other reasons
    Nodes { nodes: Vec<PrincipalId>, motivation: String },
}

/// A request to replace members of a subnet.
#[derive(Debug)]
pub struct MembershipReplaceRequest {
    pub target: ReplaceTarget,
    pub heal: bool,
    pub optimize: Option<usize>,
    pub exclude: Option<Vec<String>>,
    pub include_nodes: Option<Vec<PrincipalId>>,
    pub min_nakamoto_coefficients: Option<MinNakamotoCoefficients>,
}

/// A request to create a subnet of `size` nodes.
#[derive(Clone, Copy, Debug, PartialEq, Eq, Structural)]
pub struct SubnetCreateRequest {
    pub size: usize,
}

/// A request to extend a subnet by `size` nodes.
#[derive(Debug)]
pub struct SubnetExtendRequest {
    pub subnet: PrincipalId,
    pub size: usize,
    pub exclude: Option<Vec<String>>,
    pub include_nodes: Option<Vec<PrincipalId>>,
}

impl MembershipReplaceRequest {
    /// The nodes that the request lists to leave: those of a target of
    /// nodes, none for a target that is a subnet.
    pub fn listed_nodes(&self) -> (nodes: Vec<PrincipalId>)
        ensures
            nodes@ == match self.target {
                ReplaceTarget::Subnet(_) => Seq::empty(),
                ReplaceTarget::Nodes { nodes, motivation } => nodes@,
            },
    {
        match &self.target {
            ReplaceTarget::Subnet(_) => Vec::new(),
            ReplaceTarget::Nodes { nodes, motivation } => nodes.clone(),
        }
    }

    /// How many nodes an optimization may replace: none where the request
    /// does not say.
    pub fn optimize_count(&self) -> (count: usize)
        ensures
            count == match self.optimize {
                Some(n) => n,
                None => 0,
            },
    {
        match self.optimize {
            Some(n) => n,
            None => 0,
        }
    }

    /// The members that must stay: none where the request does not say.
    pub fn pinned(&self) -> (pins: Vec<PrincipalId>)
        ensures
            pins@ == match self.include_nodes {
                Some(ids) => ids@,
                None => Seq::empty(),
            },
    {
        match &self.include_nodes {
            Some(ids) => ids.clone(),
            None => Vec::new(),
        }
    }
}

} // verus!
