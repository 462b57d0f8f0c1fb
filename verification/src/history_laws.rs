//! What a command never undoes: fences, counters, records and lifecycles.
use crate::advice::AdviceModel;
use crate::apply::{can_apply, step};
use crate::command::{ApplyOutcome, MetaCommand};
use crate::ids::{Epoch, TabletId};
use crate::membership::referencing;
use crate::meta::{empty_metadata, MetadataModel};
use crate::rows::{
    BackupRowModel, BackupStatusModel, NodeStatus, PitrSegmentRowModel, RestoreRowModel,
    RestoreStatusModel, StreamShardRowModel,
};
use crate::syskv::reserved;
use crate::tables::RESERVED_TABLE_NAME_SEPARATOR;
use crate::tablet_map::tablets_of;
use vstd::prelude::*;

verus! {

/// The tablet whose epoch a command is judged against, and the epoch that it expects.
pub open spec fn expected(c: MetaCommand) -> Option<(TabletId, Epoch)> {
    match c {
        MetaCommand::CasTabletReplicas { tablet, expected_epoch, .. } => Some(
            (tablet, expected_epoch),
        ),
        MetaCommand::BeginSplitInPlace { parent, expected_epoch, .. } => Some(
            (parent, expected_epoch),
        ),
        MetaCommand::CutoverSplit { parent, expected_epoch, .. } => Some((parent, expected_epoch)),
        MetaCommand::MarkSplitPlacingDone { tablet, expected_epoch } => Some(
            (tablet, expected_epoch),
        ),
        MetaCommand::RetargetSplitPlacing { tablet, expected_epoch, .. } => Some(
            (tablet, expected_epoch),
        ),
        _ => None,
    }
}

/// A stale command is refused: one that expects another epoch than its tablet has, or a tablet that
/// is not in the map.
pub proof fn a_stale_command_is_refused(m: MetadataModel, c: MetaCommand, a: AdviceModel)
    requires
        expected(c) matches Some((t, e)) && (!m.tablets.contains_key(t) || m.tablets[t].epoch != e),
    ensures
        step(m, c, a).1 is Rejected,
{
}

/// Of two replacements of a replica set that expect the same epoch, only the first takes effect.
pub proof fn one_replacement_wins_an_epoch(
    m: MetadataModel,
    first: MetaCommand,
    second: MetaCommand,
    a: AdviceModel,
)
    requires
        can_apply(m, first),
        first is CasTabletReplicas,
        second is CasTabletReplicas,
        expected(first) == expected(second),
        step(m, first, a).1 == ApplyOutcome::Applied,
    ensures
        step(step(m, first, a).0, second, a).1 == ApplyOutcome::Rejected("epoch mismatch"),
{
}

/// The floor of the tablet-id allocator never falls.
pub proof fn the_id_floor_never_falls(m: MetadataModel, c: MetaCommand, a: AdviceModel)
    requires
        can_apply(m, c),
    ensures
        m.next_tablet_id <= step(m, c, a).0.next_tablet_id,
{
    if !(c is CreateTablet || c is BeginSplitInPlace || c is BeginRestore) {
        next_tablet_id_frame(m, c, a);
    }
}

/// The highest recovery generation of a table name is never forgotten and never falls.
pub proof fn a_generation_never_rewinds(
    m: MetadataModel,
    c: MetaCommand,
    a: AdviceModel,
    table: Seq<char>,
)
    requires
        can_apply(m, c),
        m.pitr_generation.contains_key(table),
    ensures
        step(m, c, a).0.pitr_generation.contains_key(table),
        m.pitr_generation[table] <= step(m, c, a).0.pitr_generation[table],
{
    if c !is UpdateContinuousBackups {
        pitr_generation_frame(m, c, a);
    }
}

/// Enabling recovery starts a generation that the table name never had.
pub proof fn a_new_generation_is_fresh(
    m: MetadataModel,
    c: MetaCommand,
    a: AdviceModel,
    table: Seq<char>,
)
    requires
        can_apply(m, c),
        c matches MetaCommand::UpdateContinuousBackups { table: t, enabled, .. } && enabled && t@
            == table,
        step(m, c, a).1 == ApplyOutcome::Applied,
    ensures
        step(m, c, a).0.schemas[table].pitr matches Some(p) && p.generation == step(
            m,
            c,
            a,
        ).0.pitr_generation[table] && p.generation > 0 && (m.pitr_generation.contains_key(table)
            ==> m.pitr_generation[table] < p.generation),
{
}

/// Every registered table has a name that users may give: outside the reserved namespace, and
/// without the separator that the names of hidden index tables are built with.
pub open spec fn properly_named(m: MetadataModel) -> bool {
    forall|t: Seq<char>| #[trigger]
        m.schemas.contains_key(t) ==> !reserved(t) && !t.contains(RESERVED_TABLE_NAME_SEPARATOR)
}

/// A fresh cluster has no improperly named table.
pub proof fn names_begin_proper()
    ensures
        properly_named(empty_metadata()),
{
}

/// No command gives a table an improper name.
pub proof fn names_stay_proper(m: MetadataModel, c: MetaCommand, a: AdviceModel)
    requires
        properly_named(m),
    ensures
        properly_named(step(m, c, a).0),
{
    schema_names_frame(m, c, a);
}

/// A member that was ever active stays recorded as such for as long as it is a member.
pub proof fn activation_is_never_forgotten(
    m: MetadataModel,
    c: MetaCommand,
    a: AdviceModel,
    node: Seq<char>,
)
    requires
        m.members.contains_key(node),
        m.members[node].has_activated,
        step(m, c, a).0.members.contains_key(node),
    ensures
        step(m, c, a).0.members[node].has_activated,
{
    if !(c is UpsertMember || c is RemoveMember || c is RegisterNode) {
        members_frame(m, c, a);
    }
}

/// Every active member is recorded as activated.
pub open spec fn activations_recorded(m: MetadataModel) -> bool {
    forall|n: Seq<char>| #[trigger]
        m.members.contains_key(n) && m.members[n].status == NodeStatus::Active
            ==> m.members[n].has_activated
}

/// Every member that is active is recorded as activated, from a fresh cluster on.
pub proof fn active_members_are_recorded_as_activated(
    m: MetadataModel,
    c: MetaCommand,
    a: AdviceModel,
)
    ensures
        activations_recorded(empty_metadata()),
        activations_recorded(m) ==> activations_recorded(step(m, c, a).0),
{
    let n = step(m, c, a).0;
    if activations_recorded(m) {
        if !(c is UpsertMember || c is RemoveMember || c is RegisterNode) {
            members_frame(m, c, a);
        }
        assert forall|x: Seq<char>| #[trigger]
            n.members.contains_key(x) && n.members[x].status == NodeStatus::Active implies
            n.members[x].has_activated by {
            assert(m.members.contains_key(x) ==> (m.members[x].status == NodeStatus::Active
                ==> m.members[x].has_activated));
        }
    }
}

/// A member that is active or joining, or that a replica set still names, is never removed.
pub proof fn a_member_in_use_is_never_removed(
    m: MetadataModel,
    c: MetaCommand,
    a: AdviceModel,
    node: Seq<char>,
)
    requires
        m.members.contains_key(node),
        m.members[node].status == NodeStatus::Active || m.members[node].status
            == NodeStatus::Joining || referencing(m, node).len() > 0,
    ensures
        step(m, c, a).0.members.contains_key(node),
{
    if !(c is UpsertMember || c is RemoveMember || c is RegisterNode) {
        members_frame(m, c, a);
    }
}

/// Split lineage and restores are never taken out of their catalogs.
pub proof fn lineage_and_restores_are_never_pruned(m: MetadataModel, c: MetaCommand, a: AdviceModel)
    ensures
        m.split_lineage.dom().subset_of(step(m, c, a).0.split_lineage.dom()),
        m.restores.dom().subset_of(step(m, c, a).0.restores.dom()),
{
    if c !is CutoverSplit {
        split_lineage_frame(m, c, a);
    }
    if !(c is BeginRestore || c is CompleteRestore || c is FailRestore) {
        restores_frame(m, c, a);
    }
}

/// Dropping a table, its schema or its tablets, leaves backups, recovery, streams and lineage
/// alone.
pub proof fn dropping_a_table_keeps_its_history(m: MetadataModel, c: MetaCommand, a: AdviceModel)
    requires
        c is DropTableSchema || c is DropTableTablets,
    ensures
        ({
            let n = step(m, c, a).0;
            &&& n.backups == m.backups
            &&& n.backup_tablet_progress == m.backup_tablet_progress
            &&& n.pitr_base_backups == m.pitr_base_backups
            &&& n.pitr_segments == m.pitr_segments
            &&& n.pitr_generation == m.pitr_generation
            &&& n.stream_shards == m.stream_shards
            &&& n.split_lineage == m.split_lineage
            &&& n.restores == m.restores
            &&& n.next_tablet_id == m.next_tablet_id
        }),
{
}

/// Dropping a table's tablets takes all of them, with every policy, backfill record and placement
/// obligation of theirs and every member address that served one, and no tablet of another table.
pub proof fn dropping_tablets_leaves_nothing_of_them(
    m: MetadataModel,
    c: MetaCommand,
    a: AdviceModel,
    table: Seq<char>,
    t: TabletId,
)
    requires
        c matches MetaCommand::DropTableTablets { table: x } && x@ == table,
        m.tablets.contains_key(t),
    ensures
        ({
            let n = step(m, c, a).0;
            if m.tablets[t].table == Some(table) {
                &&& !n.tablets.contains_key(t)
                &&& !n.policies.contains_key(t)
                &&& !n.split_placing.contains_key(t)
                &&& forall|i: Seq<char>| !(#[trigger] n.index_backfill.contains_key((t, i)))
                &&& forall|x: Seq<char>| #[trigger]
                    n.cp_member_tablets.contains_key(x) ==> n.cp_member_tablets[x] != t
            } else {
                n.tablets.contains_key(t) && n.tablets[t] == m.tablets[t]
            }
        }),
{
    assert(tablets_of(m, table).contains(t) == (m.tablets[t].table == Some(table)));
}

/// Whether one stream segment is another but for its replicas and its reclaim mark.
pub open spec fn same_shard(x: StreamShardRowModel, y: StreamShardRowModel) -> bool {
    (StreamShardRowModel { replicas: y.replicas, expired: y.expired, ..x }) == y && (x.expired
        ==> y.expired)
}

/// Whether one recovery segment is another but for its replicas and its reclaim mark.
pub open spec fn same_segment(x: PitrSegmentRowModel, y: PitrSegmentRowModel) -> bool {
    (PitrSegmentRowModel { replicas: y.replicas, expired: y.expired, ..x }) == y && (x.expired
        ==> y.expired)
}

/// A sealed segment is never overwritten: for as long as it is in its catalog only its replicas may
/// move, and once its reclaim has begun that stays marked.
pub proof fn a_sealed_segment_is_never_overwritten(
    m: MetadataModel,
    c: MetaCommand,
    a: AdviceModel,
    k: (TabletId, u64),
)
    ensures
        m.stream_shards.contains_key(k) && step(m, c, a).0.stream_shards.contains_key(k)
            ==> same_shard(m.stream_shards[k], step(m, c, a).0.stream_shards[k]),
        m.pitr_segments.contains_key(k) && step(m, c, a).0.pitr_segments.contains_key(k)
            ==> same_segment(m.pitr_segments[k], step(m, c, a).0.pitr_segments[k]),
{
    if !(c is SealStreamShard || c is ExpireStreamShards) {
        stream_shards_frame(m, c, a);
    }
    if !(c is SealPitrSegment || c is ExpirePitrSegments) {
        pitr_segments_frame(m, c, a);
    }
}

/// Whether a backup may go from one status to another.
pub open spec fn backup_may_become(x: BackupRowModel, y: BackupRowModel) -> bool {
    &&& x.table == y.table
    &&& x.backup_name == y.backup_name
    &&& x.manifest == y.manifest
    &&& match x.status {
        BackupStatusModel::Creating => y.status != BackupStatusModel::Expired,
        BackupStatusModel::Available => y.total_bytes == x.total_bytes && (y.status
            == BackupStatusModel::Available || y.status == BackupStatusModel::Expired),
        BackupStatusModel::Failed { .. } => y.total_bytes == x.total_bytes && (
        y.status is Failed || y.status == BackupStatusModel::Expired),
        BackupStatusModel::Expired => y == x,
    }
}

/// A backup moves through its lifecycle in one direction, and what it pinned never changes.
pub proof fn a_backup_never_goes_back(
    m: MetadataModel,
    c: MetaCommand,
    a: AdviceModel,
    id: Seq<char>,
)
    requires
        m.backups.contains_key(id),
        step(m, c, a).0.backups.contains_key(id),
    ensures
        backup_may_become(m.backups[id], step(m, c, a).0.backups[id]),
{
    if !(c is BeginBackup || c is CompleteBackup || c is FailBackup || c is DeleteBackup
        || c is MarkBackupDeleted) {
        backups_frame(m, c, a);
    }
}

/// Whether a restore may go from one status to another.
pub open spec fn restore_may_become(x: RestoreRowModel, y: RestoreRowModel) -> bool {
    &&& (RestoreRowModel { status: y.status, ..x }) == y
    &&& match x.status {
        RestoreStatusModel::Seeding => true,
        RestoreStatusModel::Failed { .. } => y.status is Failed,
        RestoreStatusModel::Done => y == x,
    }
}

/// A restore moves through its lifecycle in one direction, and what it restores never changes.
pub proof fn a_restore_never_goes_back(
    m: MetadataModel,
    c: MetaCommand,
    a: AdviceModel,
    id: Seq<char>,
)
    requires
        m.restores.contains_key(id),
    ensures
        step(m, c, a).0.restores.contains_key(id),
        restore_may_become(m.restores[id], step(m, c, a).0.restores[id]),
{
    if !(c is BeginRestore || c is CompleteRestore || c is FailRestore) {
        restores_frame(m, c, a);
    }
}

proof fn members_frame(m: MetadataModel, c: MetaCommand, a: AdviceModel)
    requires
        c !is UpsertMember,
        c !is RemoveMember,
        c !is RegisterNode,
    ensures
        step(m, c, a).0.members == m.members,
{
}

proof fn backups_frame(m: MetadataModel, c: MetaCommand, a: AdviceModel)
    requires
        c !is BeginBackup,
        c !is CompleteBackup,
        c !is FailBackup,
        c !is DeleteBackup,
        c !is MarkBackupDeleted,
    ensures
        step(m, c, a).0.backups == m.backups,
{
}

proof fn restores_frame(m: MetadataModel, c: MetaCommand, a: AdviceModel)
    requires
        c !is BeginRestore,
        c !is CompleteRestore,
        c !is FailRestore,
    ensures
        step(m, c, a).0.restores == m.restores,
{
}

proof fn stream_shards_frame(m: MetadataModel, c: MetaCommand, a: AdviceModel)
    requires
        c !is SealStreamShard,
        c !is ExpireStreamShards,
    ensures
        step(m, c, a).0.stream_shards == m.stream_shards,
{
}

proof fn pitr_segments_frame(m: MetadataModel, c: MetaCommand, a: AdviceModel)
    requires
        c !is SealPitrSegment,
        c !is ExpirePitrSegments,
    ensures
        step(m, c, a).0.pitr_segments == m.pitr_segments,
{
}

proof fn pitr_generation_frame(m: MetadataModel, c: MetaCommand, a: AdviceModel)
    requires
        c !is UpdateContinuousBackups,
    ensures
        step(m, c, a).0.pitr_generation == m.pitr_generation,
{
}

proof fn split_lineage_frame(m: MetadataModel, c: MetaCommand, a: AdviceModel)
    requires
        c !is CutoverSplit,
    ensures
        step(m, c, a).0.split_lineage == m.split_lineage,
{
}

proof fn next_tablet_id_frame(m: MetadataModel, c: MetaCommand, a: AdviceModel)
    requires
        c !is CreateTablet,
        c !is BeginSplitInPlace,
        c !is BeginRestore,
    ensures
        step(m, c, a).0.next_tablet_id == m.next_tablet_id,
{
}

/// Only registering a table adds to the registered names.
proof fn schema_names_frame(m: MetadataModel, c: MetaCommand, a: AdviceModel)
    ensures
        c !is CreateTableSchema ==> step(m, c, a).0.schemas.dom().subset_of(m.schemas.dom()),
{
}

} // verus!
