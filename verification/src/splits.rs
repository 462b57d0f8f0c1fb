//! Splitting a tablet in two, and moving the halves to their placement.
use crate::command::ApplyOutcome;
use crate::ids::{next_epoch, Epoch, NodeId, TableName, TabletId};
use crate::meta::{Metadata, MetadataModel};
use crate::policy::{PlacementPolicy, PlacementPolicyModel};
use crate::rows::{SplitLineage, SplitPlacing, SplitPlacingModel};
use crate::segments::{last_epoch, last_segment};
use crate::tablet::{
    left_of, new_tablet, normal_replicas, right_of, strictly_inside, InPlaceSplitIntent,
    InPlaceSplitIntentModel, KeyRange, KeyRangeModel, SplitChild, SplitChildModel, Tablet,
    TabletModel, TabletState, TOKEN_BYTES,
};
use crate::tablet_map::{below_floor, floor_past, reject};
use crate::value::Value;
use vstd::prelude::*;

verus! {

/// Whether `table` has a change stream.
pub open spec fn streamed(m: MetadataModel, table: Seq<char>) -> bool {
    m.schemas.contains_key(table) && m.schemas[table].stream is Some
}

/// Why a split may not begin, if it may not: the children's ids are judged first, then the parent.
pub open spec fn begin_split_refusal(
    m: MetadataModel,
    parent: TabletId,
    expected_epoch: Epoch,
    intent: InPlaceSplitIntentModel,
) -> Option<&'static str> {
    if intent.left.id == intent.right.id {
        Some("child ids must be distinct")
    } else if m.tablets.contains_key(intent.left.id) {
        Some("child tablet id already exists")
    } else if below_floor(m, intent.left.id) {
        Some("child tablet id below the monotonic allocator")
    } else if m.tablets.contains_key(intent.right.id) {
        Some("child tablet id already exists")
    } else if below_floor(m, intent.right.id) {
        Some("child tablet id below the monotonic allocator")
    } else if !m.tablets.contains_key(parent) {
        Some("no such tablet")
    } else if m.tablets[parent].epoch != expected_epoch {
        Some("epoch mismatch")
    } else if m.tablets[parent].state != TabletState::Active {
        Some("tablet is not Active")
    } else if intent.split_key.len() != TOKEN_BYTES && m.tablets[parent].table is Some && streamed(
        m,
        m.tablets[parent].table->0,
    ) {
        Some("split key not token-aligned for a streamed table")
    } else if !strictly_inside(m.tablets[parent].range, intent.split_key) {
        Some("split key not strictly inside range")
    } else {
        None
    }
}

/// What beginning a split does: the parent keeps its range and replicas, records the intent, and
/// both children's ids are handed out.
pub open spec fn begin_split_in_place(
    m: MetadataModel,
    parent: TabletId,
    expected_epoch: Epoch,
    intent: InPlaceSplitIntentModel,
) -> (MetadataModel, ApplyOutcome) {
    match begin_split_refusal(m, parent, expected_epoch, intent) {
        Some(why) => reject(m, why),
        None => (
            MetadataModel {
                tablets: m.tablets.insert(
                    parent,
                    TabletModel {
                        state: TabletState::Splitting,
                        inplace_split: Some(intent),
                        epoch: next_epoch(expected_epoch),
                        ..m.tablets[parent]
                    },
                ),
                next_tablet_id: floor_past(
                    floor_past(m.next_tablet_id, intent.left.id),
                    intent.right.id,
                ),
                ..m
            },
            ApplyOutcome::Applied,
        ),
    }
}

/// The numbers that beginning a split counts up stay within 64 bits.
pub open spec fn begin_split_bounded(
    m: MetadataModel,
    parent: TabletId,
    expected_epoch: Epoch,
    intent: InPlaceSplitIntentModel,
) -> bool {
    begin_split_refusal(m, parent, expected_epoch, intent) is None ==> intent.left.id.0
        < u64::MAX && intent.right.id.0 < u64::MAX && expected_epoch.0 < u64::MAX
}

/// Why a split may not be cut over, if it may not.
pub open spec fn cutover_refusal(
    m: MetadataModel,
    parent: TabletId,
    expected_epoch: Epoch,
) -> Option<&'static str> {
    if !m.tablets.contains_key(parent) {
        Some("no such tablet")
    } else if m.tablets[parent].epoch != expected_epoch {
        Some("epoch mismatch")
    } else if m.tablets[parent].state != TabletState::Splitting {
        Some("tablet is not Splitting")
    } else if m.tablets[parent].inplace_split is None {
        Some("splitting parent has no in-place split intent")
    } else if !strictly_inside(
        m.tablets[parent].range,
        m.tablets[parent].inplace_split->0.split_key,
    ) {
        Some("split key not strictly inside range")
    } else {
        None
    }
}

/// A split child as it enters the map: active, one epoch past the initial one.
pub open spec fn child_tablet(
    child: SplitChildModel,
    table: Option<Seq<char>>,
    range: KeyRangeModel,
) -> TabletModel {
    TabletModel { epoch: Epoch(1), ..new_tablet(child.id, table, range, child.replicas) }
}

/// The obligation of a child that inherits a policy: none if it already stands where the planner
/// wants it, else to move there, or to keep asking while no placement satisfies the policy.
pub open spec fn placing_of(
    child: SplitChildModel,
    selection: Option<Seq<Seq<char>>>,
) -> Option<SplitPlacingModel> {
    match selection {
        Some(wanted) => if wanted == normal_replicas(child.replicas) {
            None
        } else {
            Some(SplitPlacingModel { target: Some(wanted), done: false })
        },
        None => Some(SplitPlacingModel { target: None, done: false }),
    }
}

/// The state with one child of a split in place.
pub open spec fn with_child(
    m: MetadataModel,
    child: SplitChildModel,
    tablet: TabletModel,
    policy: Option<PlacementPolicyModel>,
    lineage: SplitLineage,
    selection: Option<Seq<Seq<char>>>,
) -> MetadataModel {
    MetadataModel {
        tablets: m.tablets.insert(child.id, tablet),
        policies: match policy {
            Some(p) => m.policies.insert(child.id, p),
            None => m.policies,
        },
        split_lineage: m.split_lineage.insert(child.id, lineage),
        split_placing: if policy is Some && placing_of(child, selection) is Some {
            m.split_placing.insert(child.id, placing_of(child, selection)->0)
        } else {
            m.split_placing
        },
        ..m
    }
}

/// The policy of a tablet, if it has one.
pub open spec fn policy_of(m: MetadataModel, tablet: TabletId) -> Option<PlacementPolicyModel> {
    if m.policies.contains_key(tablet) {
        Some(m.policies[tablet])
    } else {
        None
    }
}

/// What cutting a split over does: the two children take over the parent's range, table and
/// policy, with their lineage recorded, and the parent leaves the map.
pub open spec fn cutover_split(
    m: MetadataModel,
    parent: TabletId,
    expected_epoch: Epoch,
    cutover_wall_ms: u64,
    selection: Option<Seq<Seq<char>>>,
) -> (MetadataModel, ApplyOutcome) {
    match cutover_refusal(m, parent, expected_epoch) {
        Some(why) => reject(m, why),
        None => {
            let source = m.tablets[parent];
            let intent = source.inplace_split->0;
            let policy = policy_of(m, parent);
            let lineage = SplitLineage {
                parent,
                parents_final_epoch: last_epoch(m.stream_shards, parent),
                cutover_wall_ms,
            };
            let left = child_tablet(
                intent.left,
                source.table,
                left_of(source.range, intent.split_key),
            );
            let right = child_tablet(
                intent.right,
                source.table,
                right_of(source.range, intent.split_key),
            );
            let m1 = with_child(m, intent.left, left, policy, lineage, selection);
            let m2 = with_child(m1, intent.right, right, policy, lineage, selection);
            (
                MetadataModel {
                    tablets: m2.tablets.remove(parent),
                    policies: m2.policies.remove(parent),
                    ..m2
                },
                ApplyOutcome::Applied,
            )
        },
    }
}

/// What recording a completed move does: it is judged against the child's own epoch, which stays.
pub open spec fn mark_split_placing_done(
    m: MetadataModel,
    tablet: TabletId,
    expected_epoch: Epoch,
) -> (MetadataModel, ApplyOutcome) {
    if !m.tablets.contains_key(tablet) {
        reject(m, "no such tablet")
    } else if m.tablets[tablet].epoch != expected_epoch {
        reject(m, "epoch mismatch")
    } else if !m.split_placing.contains_key(tablet) {
        reject(m, "no split_placing entry for this tablet")
    } else if m.split_placing[tablet].done {
        (m, ApplyOutcome::NoOp)
    } else {
        (
            MetadataModel {
                split_placing: m.split_placing.insert(
                    tablet,
                    SplitPlacingModel { done: true, ..m.split_placing[tablet] },
                ),
                ..m
            },
            ApplyOutcome::Applied,
        )
    }
}

/// What replacing a child's target does: it is judged against the child's own epoch, which stays.
pub open spec fn retarget_split_placing(
    m: MetadataModel,
    tablet: TabletId,
    expected_epoch: Epoch,
    target: Option<Seq<Seq<char>>>,
) -> (MetadataModel, ApplyOutcome) {
    if !m.tablets.contains_key(tablet) {
        reject(m, "no such tablet")
    } else if m.tablets[tablet].epoch != expected_epoch {
        reject(m, "epoch mismatch")
    } else if !m.split_placing.contains_key(tablet) {
        reject(m, "no split_placing entry for this tablet")
    } else if m.split_placing[tablet].done || m.split_placing[tablet].target == target {
        (m, ApplyOutcome::NoOp)
    } else {
        (
            MetadataModel {
                split_placing: m.split_placing.insert(
                    tablet,
                    SplitPlacingModel { target, ..m.split_placing[tablet] },
                ),
                ..m
            },
            ApplyOutcome::Applied,
        )
    }
}

/// The intent that a split command carries.
pub open spec fn intent_of(split_key: Vec<u8>, children: [(TabletId, Vec<NodeId>); 2])
    -> InPlaceSplitIntentModel {
    InPlaceSplitIntentModel {
        split_key: split_key.deep_view(),
        left: SplitChildModel { id: children[0].0, replicas: children[0].1.deep_view() },
        right: SplitChildModel { id: children[1].0, replicas: children[1].1.deep_view() },
    }
}

impl Metadata {
    /// Why `id` may not be a split child's, if it may not.
    fn child_id_refusal(&self, id: TabletId) -> (r: Option<&'static str>)
        ensures
            r == if self@.tablets.contains_key(id) {
                Some("child tablet id already exists")
            } else if below_floor(self@, id) {
                Some("child tablet id below the monotonic allocator")
            } else {
                None
            },
    {
        if self.tablets.contains_key(&id) {
            return Some("child tablet id already exists");
        }
        if self.is_below_floor(id) {
            return Some("child tablet id below the monotonic allocator");
        }
        None
    }

    /// Why a split may not begin, if it may not.
    pub(crate) fn split_refusal(
        &self,
        parent: TabletId,
        expected_epoch: Epoch,
        split_key: &Vec<u8>,
        children: &[(TabletId, Vec<NodeId>); 2],
    ) -> (r: Option<&'static str>)
        ensures
            r == begin_split_refusal(
                self@,
                parent,
                expected_epoch,
                intent_of(*split_key, *children),
            ),
    {
        if children[0].0 == children[1].0 {
            return Some("child ids must be distinct");
        }
        if let Some(why) = self.child_id_refusal(children[0].0) {
            return Some(why);
        }
        if let Some(why) = self.child_id_refusal(children[1].0) {
            return Some(why);
        }
        let source: &Tablet = match self.tablets.get(&parent) {
            None => {
                return Some("no such tablet");
            },
            Some(source) => source,
        };
        if source.epoch != expected_epoch {
            return Some("epoch mismatch");
        }
        if source.state != TabletState::Active {
            return Some("tablet is not Active");
        }
        assert(split_key@.len() == split_key.deep_view().len());
        if split_key.len() != TOKEN_BYTES {
            let streamed: bool = match &source.table {
                Some(table) => match self.schemas.get(table) {
                    Some(schema) => schema.stream.is_some(),
                    None => false,
                },
                None => false,
            };
            if streamed {
                return Some("split key not token-aligned for a streamed table");
            }
        }
        if source.range.split_at(split_key).is_none() {
            return Some("split key not strictly inside range");
        }
        None
    }

    pub(crate) fn apply_begin_split_in_place(
        &mut self,
        parent: TabletId,
        expected_epoch: Epoch,
        split_key: &Vec<u8>,
        children: &[(TabletId, Vec<NodeId>); 2],
    ) -> (out: ApplyOutcome)
        requires
            begin_split_bounded(
                old(self)@,
                parent,
                expected_epoch,
                intent_of(*split_key, *children),
            ),
        ensures
            (final(self)@, out) == begin_split_in_place(
                old(self)@,
                parent,
                expected_epoch,
                intent_of(*split_key, *children),
            ),
    {
        if let Some(why) = self.split_refusal(parent, expected_epoch, split_key, children) {
            return ApplyOutcome::Rejected(why);
        }
        let mut source: Tablet = match self.tablets.get(&parent) {
            None => {
                return ApplyOutcome::Rejected("no such tablet");
            },
            Some(source) => source.dup(),
        };
        let intent = InPlaceSplitIntent {
            split_key: split_key.dup(),
            children: [
                SplitChild { id: children[0].0, replicas: children[0].1.dup() },
                SplitChild { id: children[1].0, replicas: children[1].1.dup() },
            ],
        };
        self.raise_floor(children[0].0);
        self.raise_floor(children[1].0);
        source.state = TabletState::Splitting;
        source.inplace_split = Some(intent);
        source.epoch = expected_epoch.next();
        self.tablets.insert(parent, source);
        ApplyOutcome::Applied
    }

    /// Puts one child of a split in place.
    fn place_child(
        &mut self,
        child: &SplitChild,
        range: KeyRange,
        table: Option<TableName>,
        policy: &Option<PlacementPolicy>,
        lineage: SplitLineage,
        selection: &Option<Vec<NodeId>>,
    )
        ensures
            final(self)@ == with_child(
                old(self)@,
                child.deep_view(),
                child_tablet(child.deep_view(), table.deep_view(), range.deep_view()),
                policy.deep_view(),
                lineage,
                selection.deep_view(),
            ),
    {
        let mut t: Tablet = Tablet::with_table(child.id, table, range, child.replicas.dup());
        t.state = TabletState::Active;
        t.epoch = t.epoch.next();
        let placing: Option<SplitPlacing> = match selection {
            Some(wanted) => if wanted.same(&t.replicas) {
                None
            } else {
                Some(SplitPlacing { target: Some(wanted.dup()), done: false })
            },
            None => Some(SplitPlacing { target: None, done: false }),
        };
        assert(placing.deep_view() == placing_of(child.deep_view(), selection.deep_view()));
        self.tablets.insert(child.id, t);
        self.split_lineage.insert(child.id, lineage);
        if let Some(p) = policy {
            self.policies.insert(child.id, p.dup());
            if let Some(entry) = placing {
                self.split_placing.insert(child.id, entry);
            }
        }
    }

    pub(crate) fn apply_cutover_split(
        &mut self,
        parent: TabletId,
        expected_epoch: Epoch,
        cutover_wall_ms: u64,
        selection: &Option<Vec<NodeId>>,
    ) -> (out: ApplyOutcome)
        ensures
            (final(self)@, out) == cutover_split(
                old(self)@,
                parent,
                expected_epoch,
                cutover_wall_ms,
                selection.deep_view(),
            ),
    {
        let source: Tablet = match self.tablets.get(&parent) {
            None => {
                return ApplyOutcome::Rejected("no such tablet");
            },
            Some(source) => {
                if source.epoch != expected_epoch {
                    return ApplyOutcome::Rejected("epoch mismatch");
                }
                if source.state != TabletState::Splitting {
                    return ApplyOutcome::Rejected("tablet is not Splitting");
                }
                source.dup()
            },
        };
        let intent: InPlaceSplitIntent = match source.inplace_split {
            None => {
                return ApplyOutcome::Rejected("splitting parent has no in-place split intent");
            },
            Some(intent) => intent,
        };
        let (left_range, right_range): (KeyRange, KeyRange) = match source.range.split_at(
            &intent.split_key,
        ) {
            None => {
                return ApplyOutcome::Rejected("split key not strictly inside range");
            },
            Some(halves) => halves,
        };
        let policy: Option<PlacementPolicy> = match self.policies.get(&parent) {
            Some(p) => Some(p.dup()),
            None => None,
        };
        let parents_final_epoch: Option<u64> = match last_segment(&self.stream_shards, parent) {
            Some((epoch, _)) => Some(epoch),
            None => None,
        };
        let lineage = SplitLineage { parent, parents_final_epoch, cutover_wall_ms };
        self.place_child(
            &intent.children[0],
            left_range,
            source.table.dup(),
            &policy,
            lineage,
            selection,
        );
        self.place_child(
            &intent.children[1],
            right_range,
            source.table.dup(),
            &policy,
            lineage,
            selection,
        );
        self.tablets.remove(&parent);
        self.policies.remove(&parent);
        ApplyOutcome::Applied
    }

    pub(crate) fn apply_mark_split_placing_done(
        &mut self,
        tablet: TabletId,
        expected_epoch: Epoch,
    ) -> (out: ApplyOutcome)
        ensures
            (final(self)@, out) == mark_split_placing_done(old(self)@, tablet, expected_epoch),
    {
        match self.tablets.get(&tablet) {
            None => {
                return ApplyOutcome::Rejected("no such tablet");
            },
            Some(t) => {
                if t.epoch != expected_epoch {
                    return ApplyOutcome::Rejected("epoch mismatch");
                }
            },
        }
        let mut entry: SplitPlacing = match self.split_placing.get(&tablet) {
            None => {
                return ApplyOutcome::Rejected("no split_placing entry for this tablet");
            },
            Some(entry) => {
                if entry.done {
                    return ApplyOutcome::NoOp;
                }
                entry.dup()
            },
        };
        entry.done = true;
        self.split_placing.insert(tablet, entry);
        ApplyOutcome::Applied
    }

    pub(crate) fn apply_retarget_split_placing(
        &mut self,
        tablet: TabletId,
        expected_epoch: Epoch,
        target: &Option<Vec<NodeId>>,
    ) -> (out: ApplyOutcome)
        ensures
            (final(self)@, out) == retarget_split_placing(
                old(self)@,
                tablet,
                expected_epoch,
                target.deep_view(),
            ),
    {
        match self.tablets.get(&tablet) {
            None => {
                return ApplyOutcome::Rejected("no such tablet");
            },
            Some(t) => {
                if t.epoch != expected_epoch {
                    return ApplyOutcome::Rejected("epoch mismatch");
                }
            },
        }
        let mut entry: SplitPlacing = match self.split_placing.get(&tablet) {
            None => {
                return ApplyOutcome::Rejected("no split_placing entry for this tablet");
            },
            Some(entry) => {
                if entry.done {
                    return ApplyOutcome::NoOp;
                }
                if entry.target.same(target) {
                    return ApplyOutcome::NoOp;
                }
                entry.dup()
            },
        };
        entry.target = target.dup();
        self.split_placing.insert(tablet, entry);
        ApplyOutcome::Applied
    }
}

} // verus!
