//! What a command needs to know beyond the metadata.
use crate::ids::NodeId;
use crate::value::Value;
use vstd::prelude::*;

verus! {

/// Answers that a command is applied with: the schema rules and the replica planner live outside
/// this crate.
#[derive(Debug, PartialEq, Eq)]
pub struct Advice {
    /// Whether the schema that the command would store is well formed
    /// (see `Metadata::schema_to_validate`).
    pub schema_valid: bool,
    /// The replica set that the planner selects
    /// (see `Metadata::placement_question`); `None` if no set satisfies the policy.
    pub selection: Option<Vec<NodeId>>,
}

/// The mathematical value of a [`Advice`].
#[verifier::ext_equal]
pub struct AdviceModel {
    pub schema_valid: bool,
    pub selection: Option<Seq<Seq<char>>>,
}

impl DeepView for Advice {
    type V = AdviceModel;

    open spec fn deep_view(&self) -> AdviceModel {
        AdviceModel {
            schema_valid: self.schema_valid,
            selection: self.selection.deep_view(),
        }
    }
}

impl Value for Advice {
    fn dup(&self) -> (r: Self) {
        Advice {
            schema_valid: self.schema_valid,
            selection: self.selection.dup(),
        }
    }

    fn same(&self, other: &Self) -> (b: bool) {
        self.schema_valid == other.schema_valid && self.selection.same(&other.selection)
    }
}

impl Clone for Advice {
    fn clone(&self) -> (r: Self)
        ensures
            r.deep_view() == self.deep_view(),
    {
        self.dup()
    }
}

} // verus!
