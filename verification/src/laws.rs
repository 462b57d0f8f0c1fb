//! What holds of every command, whatever the state.
use crate::advice::AdviceModel;
use crate::apply::step;
use crate::command::{ApplyOutcome, MetaCommand};
use crate::ids::TabletId;
use crate::meta::{empty_metadata, finite, MetadataModel};
use crate::tablet_map::{tablets_of, without_tablets};
use vstd::prelude::*;

verus! {

/// A command that is refused, or has nothing to change, leaves the state as it is.
pub proof fn only_applied_commands_change_the_state(
    m: MetadataModel,
    c: MetaCommand,
    a: AdviceModel,
)
    ensures
        step(m, c, a).1 != ApplyOutcome::Applied ==> step(m, c, a).0 == m,
{
}

/// The catalogs of a fresh cluster are finite.
pub proof fn catalogs_begin_finite()
    ensures
        finite(empty_metadata()),
{
    reveal(finite);
}

/// The catalogs stay finite.
pub proof fn catalogs_stay_finite(m: MetadataModel, c: MetaCommand, a: AdviceModel)
    requires
        finite(m),
    ensures
        finite(step(m, c, a).0),
{
    match c {
        MetaCommand::NoOp => {},
        MetaCommand::UpsertMember { .. }
        | MetaCommand::RegisterCpAddr { .. }
        | MetaCommand::RegisterNodeAddrs { .. }
        | MetaCommand::RemoveMember { .. }
        | MetaCommand::RegisterNode { .. } => {
            members_stay_finite(m, c, a);
        },
        MetaCommand::CreateTablet { .. }
        | MetaCommand::CasTabletReplicas { .. }
        | MetaCommand::SetTabletPolicy { .. } => {
            tablets_stay_finite(m, c, a);
        },
        MetaCommand::BeginSplitInPlace { .. }
        | MetaCommand::CutoverSplit { .. }
        | MetaCommand::MarkSplitPlacingDone { .. }
        | MetaCommand::RetargetSplitPlacing { .. } => {
            splits_stay_finite(m, c, a);
        },
        MetaCommand::CreateTableSchema { .. }
        | MetaCommand::DropTableSchema { .. }
        | MetaCommand::ReplaceTableSchema { .. }
        | MetaCommand::CreateTableIndex { .. }
        | MetaCommand::SetIndexStatus { .. }
        | MetaCommand::MarkIndexBackfilled { .. } => {
            tables_stay_finite(m, c, a);
        },
        MetaCommand::SetTableStream { .. }
        | MetaCommand::SetTableTtl { .. }
        | MetaCommand::SetTableThroughput { .. }
        | MetaCommand::TagResource { .. }
        | MetaCommand::UntagResource { .. }
        | MetaCommand::UpdateContinuousBackups { .. } => {
            settings_stay_finite(m, c, a);
        },
        MetaCommand::SealStreamShard { .. } | MetaCommand::SealPitrSegment { .. } => {
            seals_stay_finite(m, c, a);
        },
        MetaCommand::BeginBackup { .. }
        | MetaCommand::RecordBackupTabletComplete { .. }
        | MetaCommand::CompleteBackup { .. }
        | MetaCommand::FailBackup { .. }
        | MetaCommand::MarkBackupDeleted { .. } => {
            backups_stay_finite(m, c, a);
        },
        MetaCommand::BeginRestore { .. }
        | MetaCommand::CompleteRestore { .. }
        | MetaCommand::FailRestore { .. } => {
            restores_stay_finite(m, c, a);
        },
        MetaCommand::ExpireStreamShards { .. }
        | MetaCommand::ExpirePitrSegments { .. }
        | MetaCommand::DropTableIndex { .. }
        | MetaCommand::DeleteBackup { .. } => {
            prunings_stay_finite(m, c, a);
        },
        MetaCommand::DropTableTablets { table } => {
            dropping_stays_finite(m, tablets_of(m, table@));
        },
    }
}

proof fn prunings_stay_finite(m: MetadataModel, c: MetaCommand, a: AdviceModel)
    requires
        finite(m),
        c is ExpireStreamShards || c is ExpirePitrSegments || c is DropTableIndex
            || c is DeleteBackup,
    ensures
        finite(step(m, c, a).0),
{
    reveal(finite);
    let n = step(m, c, a).0;
    match c {
        MetaCommand::ExpireStreamShards { .. } => {
            shrunk_stays_finite(m.stream_shards, n.stream_shards);
        },
        MetaCommand::ExpirePitrSegments { .. } => {
            shrunk_stays_finite(m.pitr_segments, n.pitr_segments);
        },
        MetaCommand::DropTableIndex { .. } => {
            shrunk_stays_finite(m.index_backfill, n.index_backfill);
        },
        MetaCommand::DeleteBackup { .. } => {
            shrunk_stays_finite(m.backup_tablet_progress, n.backup_tablet_progress);
        },
        _ => {},
    }
}

proof fn dropping_stays_finite(m: MetadataModel, ids: Set<TabletId>)
    requires
        finite(m),
    ensures
        finite(without_tablets(m, ids)),
{
    reveal(finite);
    let n = without_tablets(m, ids);
    shrunk_stays_finite(m.tablets, n.tablets);
    shrunk_stays_finite(m.policies, n.policies);
    shrunk_stays_finite(m.index_backfill, n.index_backfill);
    shrunk_stays_finite(m.split_placing, n.split_placing);
    shrunk_stays_finite(m.cp_member_addrs, n.cp_member_addrs);
    shrunk_stays_finite(m.cp_member_tablets, n.cp_member_tablets);
}

/// A map that gained no key stays finite.
proof fn shrunk_stays_finite<K, V>(a: Map<K, V>, b: Map<K, V>)
    requires
        a.dom().finite(),
        b.dom().subset_of(a.dom()),
    ensures
        b.dom().finite(),
{
    vstd::set_lib::lemma_set_subset_finite(a.dom(), b.dom());
}

proof fn members_stay_finite(m: MetadataModel, c: MetaCommand, a: AdviceModel)
    requires
        finite(m),
        c is UpsertMember || c is RegisterCpAddr || c is RegisterNodeAddrs || c is RemoveMember
            || c is RegisterNode,
    ensures
        finite(step(m, c, a).0),
{
    reveal(finite);
}

proof fn tablets_stay_finite(m: MetadataModel, c: MetaCommand, a: AdviceModel)
    requires
        finite(m),
        c is CreateTablet || c is CasTabletReplicas || c is SetTabletPolicy,
    ensures
        finite(step(m, c, a).0),
{
    reveal(finite);
}

proof fn splits_stay_finite(m: MetadataModel, c: MetaCommand, a: AdviceModel)
    requires
        finite(m),
        c is BeginSplitInPlace || c is CutoverSplit || c is MarkSplitPlacingDone
            || c is RetargetSplitPlacing,
    ensures
        finite(step(m, c, a).0),
{
    reveal(finite);
}

proof fn tables_stay_finite(m: MetadataModel, c: MetaCommand, a: AdviceModel)
    requires
        finite(m),
        c is CreateTableSchema || c is DropTableSchema || c is ReplaceTableSchema
            || c is CreateTableIndex || c is SetIndexStatus || c is MarkIndexBackfilled,
    ensures
        finite(step(m, c, a).0),
{
    reveal(finite);
}

proof fn settings_stay_finite(m: MetadataModel, c: MetaCommand, a: AdviceModel)
    requires
        finite(m),
        c is SetTableStream || c is SetTableTtl || c is SetTableThroughput || c is TagResource
            || c is UntagResource || c is UpdateContinuousBackups,
    ensures
        finite(step(m, c, a).0),
{
    reveal(finite);
}

proof fn seals_stay_finite(m: MetadataModel, c: MetaCommand, a: AdviceModel)
    requires
        finite(m),
        c is SealStreamShard || c is SealPitrSegment,
    ensures
        finite(step(m, c, a).0),
{
    reveal(finite);
}

proof fn backups_stay_finite(m: MetadataModel, c: MetaCommand, a: AdviceModel)
    requires
        finite(m),
        c is BeginBackup || c is RecordBackupTabletComplete || c is CompleteBackup
            || c is FailBackup || c is MarkBackupDeleted,
    ensures
        finite(step(m, c, a).0),
{
    reveal(finite);
}

proof fn restores_stay_finite(m: MetadataModel, c: MetaCommand, a: AdviceModel)
    requires
        finite(m),
        c is BeginRestore || c is CompleteRestore || c is FailRestore,
    ensures
        finite(step(m, c, a).0),
{
    reveal(finite);
}

} // verus!
