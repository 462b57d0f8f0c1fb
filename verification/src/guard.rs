//! Testing, before a command is applied, that it can be.
use crate::advice::Advice;
use crate::apply::{can_apply, step};
use crate::backups::{manifest_progress, sum_bytes};
use crate::command::{ApplyOutcome, MetaCommand};
use crate::ids::{Epoch, NodeId, TabletId};
use crate::lineage::children;
use crate::meta::{Metadata, MetadataModel};
use crate::mirror::can_mirror;
use crate::rows::{
    BackupStatus, BackupStatusModel, BackupTabletProgress, RestoreStatus, SplitLineage,
};
use crate::sorted_map::in_order;
use crate::split_laws::rising_lineage_is_acyclic;
use crate::tablet::{InPlaceSplitIntent, TabletState};
use crate::{pitr, restores, splits};
use vstd::prelude::*;

verus! {

/// Every split child has a higher id than its parent.
pub open spec fn lineage_rises(m: MetadataModel) -> bool {
    forall|c: TabletId| #[trigger]
        m.split_lineage.contains_key(c) ==> m.split_lineage[c].parent.0 < c.0
}

/// What has to be tested before `c` is applied: that the numbers which it counts up stay within 64
/// bits, and that the split lineage which it follows rises.
pub open spec fn admissible(m: MetadataModel, c: MetaCommand) -> bool {
    match c {
        MetaCommand::CompleteBackup { backup_id } => m.backups.contains_key(backup_id@)
            && m.backups[backup_id@].status == BackupStatusModel::Creating ==> lineage_rises(m)
            && sum_bytes(manifest_progress(m, backup_id@)) <= u64::MAX,
        _ => can_apply(m, c),
    }
}

/// A command that passes the test can be applied.
pub proof fn admissible_commands_can_be_applied(m: MetadataModel, c: MetaCommand)
    requires
        admissible(m, c),
    ensures
        can_apply(m, c),
{
    if lineage_rises(m) {
        rising_lineage_is_acyclic(m.split_lineage);
    }
}

/// What has to be tested before the mirror of `c` is derived: that nothing was ever split from the
/// parent of a cutover, if that is still in the map, and that it is none of its own children.
pub open spec fn mirrorable(m: MetadataModel, c: MetaCommand) -> bool {
    c matches MetaCommand::CutoverSplit { parent, .. } ==> m.tablets.contains_key(parent)
        && m.tablets[parent].inplace_split is Some ==> children(m.split_lineage, parent)
        =~= Set::empty() && m.tablets[parent].inplace_split->0.left.id != parent
        && m.tablets[parent].inplace_split->0.right.id != parent
}

/// The mirror of a command that passes the test can be derived.
pub proof fn mirrorable_commands_can_be_mirrored(
    m: MetadataModel,
    c: MetaCommand,
    a: crate::advice::AdviceModel,
)
    requires
        mirrorable(m, c),
    ensures
        can_mirror(m, step(m, c, a).0, c),
{
    match c {
        MetaCommand::CutoverSplit { parent, .. } => {
            let n = step(m, c, a).0;
            if step(m, c, a).1 == ApplyOutcome::Applied {
                assert forall|t: TabletId| children(n.split_lineage, parent).contains(t) implies
                    n.tablets.dom().contains(t) by {
                    assert(!children(m.split_lineage, parent).contains(t));
                }
            }
        },
        _ => {},
    }
}

impl Metadata {
    /// Whether every split child has a higher id than its parent.
    pub fn lineage_rises(&self) -> (b: bool)
        ensures
            b == lineage_rises(self@),
    {
        let n: usize = self.split_lineage.len();
        let ghost keys = self.split_lineage.keys();
        let mut i: usize = 0;
        while i < n
            invariant
                i <= n,
                n == keys.len(),
                keys == self.split_lineage.keys(),
                in_order(self.split_lineage),
                forall|j: int|
                    0 <= j < i ==> self@.split_lineage[#[trigger] keys[j]].parent.0 < keys[j].0,
            decreases n - i,
        {
            let c: TabletId = *self.split_lineage.key_at(i);
            let row: &SplitLineage = self.split_lineage.value_at(i);
            assert(self@.split_lineage[keys[i as int]] == self.split_lineage.values()[i as int]);
            if row.parent.0 >= c.0 {
                assert(self@.split_lineage.contains_key(keys[i as int]));
                return false;
            }
            i = i + 1;
        }
        proof {
            assert forall|c: TabletId| #[trigger] self@.split_lineage.contains_key(c) implies
                self@.split_lineage[c].parent.0 < c.0 by {
                assert(keys.contains(c));
            }
        }
        true
    }

    /// Whether the size of a backup fits in 64 bits.
    fn backup_size_fits(&self, backup_id: &str) -> (b: bool)
        requires
            lineage_rises(self@),
        ensures
            b == (sum_bytes(manifest_progress(self@, backup_id@)) <= u64::MAX),
    {
        proof {
            rising_lineage_is_acyclic(self@.split_lineage);
        }
        let rows: Vec<(TabletId, Option<BackupTabletProgress>)> =
            self.backup_manifest_tablet_progress(backup_id);
        let ghost all = rows.deep_view();
        let mut sum: u64 = 0;
        let mut i: usize = 0;
        assert(all.take(0) =~= Seq::empty());
        while i < rows.len()
            invariant
                i <= rows@.len(),
                all == rows.deep_view(),
                all == manifest_progress(self@, backup_id@),
                all.len() == rows@.len(),
                sum == sum_bytes(all.take(i as int)),
            decreases rows@.len() - i,
        {
            proof {
                crate::backups::sum_bytes_prefix(all, i + 1);
                assert(all.take(i + 1).drop_last() =~= all.take(i as int));
                assert(all.take(i + 1).last() == all[i as int]);
                assert(all[i as int].1 == rows@[i as int].1);
            }
            if let Some(p) = rows[i].1 {
                match sum.checked_add(p.bytes) {
                    Some(more) => {
                        sum = more;
                    },
                    None => {
                        return false;
                    },
                }
            }
            i = i + 1;
        }
        assert(all.take(i as int) =~= all);
        true
    }

    /// Whether `command` can be applied.
    #[must_use]
    pub fn admits(&self, command: &MetaCommand) -> (b: bool)
        ensures
            b == admissible(self@, *command),
            b ==> can_apply(self@, *command),
    {
        proof {
            if admissible(self@, *command) {
                admissible_commands_can_be_applied(self@, *command);
            }
        }
        match command {
            MetaCommand::CreateTablet { tablet, table, .. } => {
                if self.tablets.contains_key(tablet) || self.is_below_floor(*tablet) {
                    return true;
                }
                if let Some(name) = table {
                    if self.has_table_tablet(name.as_str()) {
                        return true;
                    }
                }
                tablet.0 < u64::MAX
            },
            MetaCommand::CasTabletReplicas { tablet, expected_epoch, .. } => match self.tablets.get(
                tablet,
            ) {
                None => true,
                Some(t) => t.epoch != *expected_epoch || expected_epoch.0 < u64::MAX,
            },
            MetaCommand::BeginSplitInPlace { parent, expected_epoch, split_key, children } => {
                self.admits_split(*parent, *expected_epoch, split_key, children)
            },
            MetaCommand::UpdateContinuousBackups { table, enabled, .. } => {
                if !*enabled {
                    return true;
                }
                match self.schemas.get(table) {
                    None => true,
                    Some(schema) => schema.pitr.is_some() || match self.pitr_generation.get(table) {
                        None => true,
                        Some(g) => *g < u64::MAX,
                    },
                }
            },
            MetaCommand::CompleteBackup { backup_id } => match self.backups.get(backup_id) {
                None => true,
                Some(row) => match row.status {
                    BackupStatus::Creating => self.lineage_rises() && self.backup_size_fits(
                        backup_id.as_str(),
                    ),
                    _ => true,
                },
            },
            MetaCommand::BeginRestore { restore_id, tablet, .. } => {
                if self.restores.contains_key(restore_id) || self.tablets.contains_key(tablet) {
                    return true;
                }
                tablet.0 < u64::MAX || self.is_below_floor(*tablet)
            },
            MetaCommand::CompleteRestore { restore_id } => match self.restores.get(restore_id) {
                None => true,
                Some(row) => match row.status {
                    RestoreStatus::Seeding => match self.tablets.get(&row.tablet) {
                        None => true,
                        Some(t) => t.state != TabletState::Building || t.epoch.0 < u64::MAX,
                    },
                    _ => true,
                },
            },
            _ => true,
        }
    }

    /// Whether a split can be begun.
    fn admits_split(
        &self,
        parent: TabletId,
        expected_epoch: Epoch,
        split_key: &Vec<u8>,
        children: &[(TabletId, Vec<NodeId>); 2],
    ) -> (b: bool)
        ensures
            b == splits::begin_split_bounded(
                self@,
                parent,
                expected_epoch,
                splits::intent_of(*split_key, *children),
            ),
    {
        let left: TabletId = children[0].0;
        let right: TabletId = children[1].0;
        if left == right || self.tablets.contains_key(&left) {
            return true;
        }
        if left.0 < u64::MAX && right.0 < u64::MAX && expected_epoch.0 < u64::MAX {
            return true;
        }
        self.split_refusal(parent, expected_epoch, split_key, children).is_some()
    }

    /// The change that brings the metadata on by `command`, if it can be applied; otherwise nothing
    /// changes, and there is no outcome.
    pub fn try_apply(&mut self, command: &MetaCommand, advice: &Advice) -> (out: Option<
        ApplyOutcome,
    >)
        ensures
            out is Some <==> admissible(old(self)@, *command),
            match out {
                Some(outcome) => (final(self)@, outcome) == step(
                    old(self)@,
                    *command,
                    advice.deep_view(),
                ),
                None => final(self)@ == old(self)@,
            },
    {
        if self.admits(command) {
            Some(self.apply(command, advice))
        } else {
            None
        }
    }

    /// Whether the mirror of `command` can be derived.
    #[must_use]
    pub fn admits_mirror(&self, command: &MetaCommand) -> (b: bool)
        ensures
            b == mirrorable(self@, *command),
    {
        match command {
            MetaCommand::CutoverSplit { parent, .. } => {
                let intent: &InPlaceSplitIntent = match self.tablets.get(parent) {
                    None => {
                        return true;
                    },
                    Some(t) => match &t.inplace_split {
                        None => {
                            return true;
                        },
                        Some(intent) => intent,
                    },
                };
                let kids: Vec<TabletId> = self.split_child_ids(*parent);
                proof {
                    assert(kids@.len() == kids.deep_view().len());
                    if kids@.len() > 0 {
                        assert(kids.deep_view().contains(kids.deep_view()[0]));
                    } else {
                        assert forall|t: TabletId| !children(
                            self@.split_lineage,
                            *parent,
                        ).contains(t) by {
                            if children(self@.split_lineage, *parent).contains(t) {
                                assert(kids.deep_view().contains(t));
                            }
                        }
                        assert(children(self@.split_lineage, *parent) =~= Set::empty());
                    }
                }
                kids.len() == 0 && intent.children[0].id != *parent && intent.children[1].id
                    != *parent
            },
            _ => true,
        }
    }
}

/// Whether what a command counts up has room left: ids, epochs and generations below the highest
/// there is, and a backup whose size fits and whose splits can be followed.
pub open spec fn has_room(m: MetadataModel, c: MetaCommand) -> bool {
    match c {
        MetaCommand::CreateTablet { tablet, .. } => tablet.0 < u64::MAX,
        MetaCommand::CasTabletReplicas { expected_epoch, .. } => expected_epoch.0 < u64::MAX,
        MetaCommand::BeginSplitInPlace { expected_epoch, children, .. } => expected_epoch.0
            < u64::MAX && children[0].0.0 < u64::MAX && children[1].0.0 < u64::MAX,
        MetaCommand::UpdateContinuousBackups { table, .. } => m.pitr_generation.contains_key(table@)
            ==> m.pitr_generation[table@] < u64::MAX,
        MetaCommand::CompleteBackup { backup_id } => lineage_rises(m) && sum_bytes(
            manifest_progress(m, backup_id@),
        ) <= u64::MAX,
        MetaCommand::BeginRestore { tablet, .. } => tablet.0 < u64::MAX,
        MetaCommand::CompleteRestore { restore_id } => m.restores.contains_key(restore_id@)
            ==> m.tablets[m.restores[restore_id@].tablet].epoch.0 < u64::MAX,
        _ => true,
    }
}

/// Every command that has room is admitted, and can be applied.
pub proof fn only_the_limits_stand_in_the_way(m: MetadataModel, c: MetaCommand)
    requires
        has_room(m, c),
    ensures
        admissible(m, c),
        can_apply(m, c),
{
    admissible_commands_can_be_applied(m, c);
}

} // verus!
