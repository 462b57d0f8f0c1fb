//! What placement works on: candidate nodes and the policies that choose among them.
use crate::ids::NodeId;
use crate::sorted_map::SortedMap;
use crate::value::Value;
use vstd::prelude::*;

verus! {

/// How many replicas a tablet wants, and where they may stand.
#[derive(Debug, PartialEq, Eq)]
pub struct PlacementPolicy {
    /// The policy's name.
    pub name: String,
    /// How many replicas it asks for.
    pub replicas: u64,
    /// The planner's own encoding of residency and spread; carried along, never read here.
    pub constraints: Vec<u8>,
}

/// The mathematical value of a [`PlacementPolicy`].
#[verifier::ext_equal]
pub struct PlacementPolicyModel {
    pub name: Seq<char>,
    pub replicas: u64,
    pub constraints: Seq<u8>,
}

impl DeepView for PlacementPolicy {
    type V = PlacementPolicyModel;

    open spec fn deep_view(&self) -> PlacementPolicyModel {
        PlacementPolicyModel {
            name: self.name.deep_view(),
            replicas: self.replicas,
            constraints: self.constraints.deep_view(),
        }
    }
}

impl Value for PlacementPolicy {
    fn dup(&self) -> (r: Self) {
        PlacementPolicy {
            name: self.name.dup(),
            replicas: self.replicas,
            constraints: self.constraints.dup(),
        }
    }

    fn same(&self, other: &Self) -> (b: bool) {
        self.name.same(&other.name)
            && self.replicas == other.replicas
            && self.constraints.same(&other.constraints)
    }
}

impl Clone for PlacementPolicy {
    fn clone(&self) -> (r: Self)
        ensures
            r.deep_view() == self.deep_view(),
    {
        self.dup()
    }
}

impl PlacementPolicy {
    /// A policy that asks for `replicas` replicas anywhere.
    pub fn simple(name: &str, replicas: u64) -> (r: PlacementPolicy)
        ensures
            r.deep_view() == (PlacementPolicyModel {
                name: name@,
                replicas,
                constraints: Seq::empty(),
            }),
    {
        let r = PlacementPolicy { name: name.to_owned(), replicas, constraints: Vec::new() };
        assert(r.constraints.deep_view() =~= Seq::<u8>::empty());
        r
    }
}

/// A node that placement may choose.
#[derive(Debug, PartialEq, Eq)]
pub struct Candidate {
    /// The node.
    pub node: NodeId,
    /// Its topology labels.
    pub labels: SortedMap<String, String>,
}

/// The mathematical value of a [`Candidate`].
#[verifier::ext_equal]
pub struct CandidateModel {
    pub node: Seq<char>,
    pub labels: Map<Seq<char>, Seq<char>>,
}

impl DeepView for Candidate {
    type V = CandidateModel;

    open spec fn deep_view(&self) -> CandidateModel {
        CandidateModel {
            node: self.node.deep_view(),
            labels: self.labels.deep_view(),
        }
    }
}

impl Value for Candidate {
    fn dup(&self) -> (r: Self) {
        Candidate {
            node: self.node.dup(),
            labels: self.labels.dup(),
        }
    }

    fn same(&self, other: &Self) -> (b: bool) {
        self.node.same(&other.node)
            && self.labels.same(&other.labels)
    }
}

impl Clone for Candidate {
    fn clone(&self) -> (r: Self)
        ensures
            r.deep_view() == self.deep_view(),
    {
        self.dup()
    }
}

impl Candidate {
    /// The candidate `node` with its labels.
    pub fn new(node: NodeId, labels: SortedMap<String, String>) -> (r: Candidate)
        ensures
            r.deep_view() == (CandidateModel { node: node.deep_view(), labels: labels@ }),
    {
        Candidate { node, labels }
    }
}

} // verus!
