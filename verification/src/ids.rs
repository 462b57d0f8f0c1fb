//! Identities: nodes, tablets, epochs, table names.
use crate::value::{Key, Rank, Value};
use vstd::prelude::*;

verus! {

/// A table's name.
pub type TableName = String;

/// A node's identity: an opaque name, ordered as its UTF-8 bytes are.
#[derive(Debug, PartialEq, Eq, PartialOrd, Ord, Hash)]
pub struct NodeId(pub String);

impl DeepView for NodeId {
    type V = Seq<char>;

    open spec fn deep_view(&self) -> Seq<char> {
        self.0@
    }
}

impl Value for NodeId {
    fn dup(&self) -> (r: Self) {
        NodeId(self.0.dup())
    }

    fn same(&self, other: &Self) -> (b: bool) {
        self.0.same(&other.0)
    }
}

impl Clone for NodeId {
    fn clone(&self) -> (r: Self)
        ensures
            r.deep_view() == self.deep_view(),
    {
        self.dup()
    }
}

impl Key for NodeId {
    open spec fn before(a: Seq<char>, b: Seq<char>) -> bool {
        String::before(a, b)
    }

    proof fn before_irreflexive(a: Seq<char>) {
        String::before_irreflexive(a);
    }

    proof fn before_transitive(a: Seq<char>, b: Seq<char>, c: Seq<char>) {
        String::before_transitive(a, b, c);
    }

    proof fn before_total(a: Seq<char>, b: Seq<char>) {
        String::before_total(a, b);
    }

    fn rank(&self, other: &Self) -> (r: Rank) {
        self.0.rank(&other.0)
    }
}

/// A tablet's identity.
#[derive(Clone, Copy, Debug, PartialEq, Eq, PartialOrd, Ord, Hash, Structural)]
pub struct TabletId(pub u64);

impl DeepView for TabletId {
    type V = TabletId;

    open spec fn deep_view(&self) -> TabletId {
        *self
    }
}

impl Value for TabletId {
    fn dup(&self) -> (r: Self) {
        *self
    }

    fn same(&self, other: &Self) -> (b: bool) {
        *self == *other
    }
}

impl Key for TabletId {
    open spec fn before(a: TabletId, b: TabletId) -> bool {
        a.0 < b.0
    }

    proof fn before_irreflexive(a: TabletId) {
    }

    proof fn before_transitive(a: TabletId, b: TabletId, c: TabletId) {
    }

    proof fn before_total(a: TabletId, b: TabletId) {
    }

    fn rank(&self, other: &Self) -> (r: Rank) {
        self.0.rank(&other.0)
    }
}

/// A tablet's compare-and-swap counter: every placement or lifecycle change of the tablet raises
/// it.
#[derive(Clone, Copy, Debug, PartialEq, Eq, PartialOrd, Ord, Hash, Structural)]
pub struct Epoch(pub u64);

impl DeepView for Epoch {
    type V = Epoch;

    open spec fn deep_view(&self) -> Epoch {
        *self
    }
}

impl Value for Epoch {
    fn dup(&self) -> (r: Self) {
        *self
    }

    fn same(&self, other: &Self) -> (b: bool) {
        *self == *other
    }
}

impl Epoch {
    /// The epoch of a freshly created tablet.
    pub fn initial() -> (r: Epoch)
        ensures
            r == Epoch(0),
    {
        Epoch(0)
    }

    /// The epoch that follows.
    pub fn next(self) -> (r: Epoch)
        requires
            self.0 < u64::MAX,
        ensures
            r == next_epoch(self),
    {
        Epoch(self.0 + 1)
    }
}

/// The epoch that follows `e`.
pub open spec fn next_epoch(e: Epoch) -> Epoch {
    Epoch((e.0 + 1) as u64)
}

} // verus!
