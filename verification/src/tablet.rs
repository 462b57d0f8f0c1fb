//! Tablets: a table's key ranges, their replica sets and their lifecycle.
use crate::ids::{Epoch, NodeId, TableName, TabletId};
use crate::sorted_map::{listing, sorted_unique};
use crate::value::{bytes_lt, rank_bytes, Rank, Value};
use vstd::prelude::*;

verus! {

/// The width in bytes of a partition token, the prefix that a streamed table may be split on.
pub const TOKEN_BYTES: usize = 8;

/// A half-open range of keys: from `start` up to and without `end`.
#[derive(Debug, PartialEq, Eq)]
pub struct KeyRange {
    /// The lowest key of the range.
    pub start: Vec<u8>,
    /// The first key past the range; `None` is unbounded.
    pub end: Option<Vec<u8>>,
}

/// The mathematical value of a [`KeyRange`].
#[verifier::ext_equal]
pub struct KeyRangeModel {
    pub start: Seq<u8>,
    pub end: Option<Seq<u8>>,
}

impl DeepView for KeyRange {
    type V = KeyRangeModel;

    open spec fn deep_view(&self) -> KeyRangeModel {
        KeyRangeModel {
            start: self.start.deep_view(),
            end: self.end.deep_view(),
        }
    }
}

impl Value for KeyRange {
    fn dup(&self) -> (r: Self) {
        KeyRange {
            start: self.start.dup(),
            end: self.end.dup(),
        }
    }

    fn same(&self, other: &Self) -> (b: bool) {
        self.start.same(&other.start)
            && self.end.same(&other.end)
    }
}

impl Clone for KeyRange {
    fn clone(&self) -> (r: Self)
        ensures
            r.deep_view() == self.deep_view(),
    {
        self.dup()
    }
}

/// Whether `key` lies strictly inside the range: above its start and below its end.
pub open spec fn strictly_inside(r: KeyRangeModel, key: Seq<u8>) -> bool {
    bytes_lt(r.start, key) && (r.end matches Some(e) ==> bytes_lt(key, e))
}

/// The range of every key.
pub open spec fn whole_range() -> KeyRangeModel {
    KeyRangeModel { start: Seq::empty(), end: None }
}

/// The part of `r` below `key`.
pub open spec fn left_of(r: KeyRangeModel, key: Seq<u8>) -> KeyRangeModel {
    KeyRangeModel { start: r.start, end: Some(key) }
}

/// The part of `r` from `key` on.
pub open spec fn right_of(r: KeyRangeModel, key: Seq<u8>) -> KeyRangeModel {
    KeyRangeModel { start: key, end: r.end }
}

impl KeyRange {
    /// The range of every key.
    pub fn whole() -> (r: KeyRange)
        ensures
            r.deep_view() == whole_range(),
    {
        let r = KeyRange { start: Vec::new(), end: None };
        assert(r.start.deep_view() =~= Seq::<u8>::empty());
        r
    }

    /// The two halves of the range around `key`, or `None` unless `key` lies strictly inside.
    pub fn split_at(&self, key: &Vec<u8>) -> (r: Option<(KeyRange, KeyRange)>)
        ensures
            r is Some <==> strictly_inside(self.deep_view(), key.deep_view()),
            r matches Some(p) ==> p.0.deep_view() == left_of(self.deep_view(), key.deep_view())
                && p.1.deep_view() == right_of(self.deep_view(), key.deep_view()),
    {
        proof {
            bytes_deep_view(self.start);
            bytes_deep_view(*key);
            if let Some(e) = &self.end {
                bytes_deep_view(*e);
            }
        }
        match rank_bytes(self.start.as_slice(), key.as_slice()) {
            Rank::Before => {},
            _ => {
                return None;
            },
        }
        if let Some(end) = &self.end {
            match rank_bytes(key.as_slice(), end.as_slice()) {
                Rank::Before => {},
                _ => {
                    return None;
                },
            }
        }
        Some(
            (
                KeyRange { start: self.start.dup(), end: Some(key.dup()) },
                KeyRange { start: key.dup(), end: self.end.dup() },
            ),
        )
    }
}

/// A byte vector's deep view is the sequence of its bytes.
pub proof fn bytes_deep_view(v: Vec<u8>)
    ensures
        v.deep_view() == v@,
{
    assert(v.deep_view() =~= v@);
}

/// Where a tablet stands in its lifecycle.
#[derive(Clone, Copy, Debug, PartialEq, Eq, Structural)]
pub enum TabletState {
    /// Serving its range.
    Active,
    /// Being filled: not yet a complete copy, and never routed to.
    Building,
    /// Still serving its range while its two children are prepared.
    Splitting,
}

/// One half of a split: the tablet that will serve it and that tablet's replicas.
#[derive(Debug, PartialEq, Eq)]
pub struct SplitChild {
    /// The child tablet's id.
    pub id: TabletId,
    /// The nodes that will hold the child.
    pub replicas: Vec<NodeId>,
}

/// The mathematical value of a [`SplitChild`].
#[verifier::ext_equal]
pub struct SplitChildModel {
    pub id: TabletId,
    pub replicas: Seq<Seq<char>>,
}

impl DeepView for SplitChild {
    type V = SplitChildModel;

    open spec fn deep_view(&self) -> SplitChildModel {
        SplitChildModel {
            id: self.id,
            replicas: self.replicas.deep_view(),
        }
    }
}

impl Value for SplitChild {
    fn dup(&self) -> (r: Self) {
        SplitChild {
            id: self.id,
            replicas: self.replicas.dup(),
        }
    }

    fn same(&self, other: &Self) -> (b: bool) {
        self.id == other.id
            && self.replicas.same(&other.replicas)
    }
}

impl Clone for SplitChild {
    fn clone(&self) -> (r: Self)
        ensures
            r.deep_view() == self.deep_view(),
    {
        self.dup()
    }
}

/// A split that a tablet has begun: the key and the two children, the left half first.
#[derive(Debug, PartialEq, Eq)]
pub struct InPlaceSplitIntent {
    /// The first key of the right half.
    pub split_key: Vec<u8>,
    /// The two children, the left half first.
    pub children: [SplitChild; 2],
}

/// The mathematical value of an [`InPlaceSplitIntent`].
pub struct InPlaceSplitIntentModel {
    pub split_key: Seq<u8>,
    pub left: SplitChildModel,
    pub right: SplitChildModel,
}

impl DeepView for InPlaceSplitIntent {
    type V = InPlaceSplitIntentModel;

    open spec fn deep_view(&self) -> InPlaceSplitIntentModel {
        InPlaceSplitIntentModel {
            split_key: self.split_key.deep_view(),
            left: self.children[0].deep_view(),
            right: self.children[1].deep_view(),
        }
    }
}

impl Value for InPlaceSplitIntent {
    fn dup(&self) -> (r: Self) {
        InPlaceSplitIntent {
            split_key: self.split_key.dup(),
            children: [self.children[0].dup(), self.children[1].dup()],
        }
    }

    fn same(&self, other: &Self) -> (b: bool) {
        self.split_key.same(&other.split_key) && self.children[0].same(&other.children[0])
            && self.children[1].same(&other.children[1])
    }
}

impl Clone for InPlaceSplitIntent {
    fn clone(&self) -> (r: Self)
        ensures
            r.deep_view() == self.deep_view(),
    {
        self.dup()
    }
}

/// A tablet: one key range of one table (or of all), and the nodes that hold it.
#[derive(Debug, PartialEq, Eq)]
pub struct Tablet {
    /// The tablet's id.
    pub id: TabletId,
    /// The table it is scoped to; `None` serves every table.
    pub table: Option<TableName>,
    /// The keys it owns.
    pub range: KeyRange,
    /// The nodes that hold it, ascending and without repeats.
    pub replicas: Vec<NodeId>,
    /// The compare-and-swap counter of its placement.
    pub epoch: Epoch,
    /// Where it stands in its lifecycle.
    pub state: TabletState,
    /// The split it has begun, if any.
    pub inplace_split: Option<InPlaceSplitIntent>,
}

/// The mathematical value of a [`Tablet`].
#[verifier::ext_equal]
pub struct TabletModel {
    pub id: TabletId,
    pub table: Option<Seq<char>>,
    pub range: KeyRangeModel,
    pub replicas: Seq<Seq<char>>,
    pub epoch: Epoch,
    pub state: TabletState,
    pub inplace_split: Option<InPlaceSplitIntentModel>,
}

impl DeepView for Tablet {
    type V = TabletModel;

    open spec fn deep_view(&self) -> TabletModel {
        TabletModel {
            id: self.id,
            table: self.table.deep_view(),
            range: self.range.deep_view(),
            replicas: self.replicas.deep_view(),
            epoch: self.epoch,
            state: self.state,
            inplace_split: self.inplace_split.deep_view(),
        }
    }
}

impl Value for Tablet {
    fn dup(&self) -> (r: Self) {
        Tablet {
            id: self.id,
            table: self.table.dup(),
            range: self.range.dup(),
            replicas: self.replicas.dup(),
            epoch: self.epoch,
            state: self.state,
            inplace_split: self.inplace_split.dup(),
        }
    }

    fn same(&self, other: &Self) -> (b: bool) {
        self.id == other.id
            && self.table.same(&other.table)
            && self.range.same(&other.range)
            && self.replicas.same(&other.replicas)
            && self.epoch == other.epoch
            && self.state == other.state
            && self.inplace_split.same(&other.inplace_split)
    }
}

impl Clone for Tablet {
    fn clone(&self) -> (r: Self)
        ensures
            r.deep_view() == self.deep_view(),
    {
        self.dup()
    }
}

/// A replica list in canonical form: ascending, each node once.
pub open spec fn normal_replicas(replicas: Seq<Seq<char>>) -> Seq<Seq<char>> {
    listing::<NodeId>(replicas.to_set())
}

/// A fresh tablet: active, at the initial epoch, its replicas in canonical form.
pub open spec fn new_tablet(
    id: TabletId,
    table: Option<Seq<char>>,
    range: KeyRangeModel,
    replicas: Seq<Seq<char>>,
) -> TabletModel {
    TabletModel {
        id,
        table,
        range,
        replicas: normal_replicas(replicas),
        epoch: Epoch(0),
        state: TabletState::Active,
        inplace_split: None,
    }
}

impl Tablet {
    /// A fresh tablet that serves every table.
    pub fn new(id: TabletId, range: KeyRange, replicas: Vec<NodeId>) -> (r: Tablet)
        ensures
            r.deep_view() == new_tablet(id, None, range.deep_view(), replicas.deep_view()),
    {
        Tablet::with_table(id, None, range, replicas)
    }

    /// A fresh tablet scoped to `table`.
    pub fn with_table(
        id: TabletId,
        table: Option<TableName>,
        range: KeyRange,
        replicas: Vec<NodeId>,
    ) -> (r: Tablet)
        ensures
            r.deep_view() == new_tablet(
                id,
                table.deep_view(),
                range.deep_view(),
                replicas.deep_view(),
            ),
    {
        Tablet {
            id,
            table,
            range,
            replicas: sorted_unique(&replicas),
            epoch: Epoch::initial(),
            state: TabletState::Active,
            inplace_split: None,
        }
    }

    /// Whether requests may be routed to the tablet: a tablet that is being filled is never served.
    pub fn is_routable(&self) -> (b: bool)
        ensures
            b == (self.state != TabletState::Building),
    {
        self.state != TabletState::Building
    }
}

} // verus!
