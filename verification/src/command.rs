//! The commands that change the metadata, and what comes of them.
use crate::advice::AdviceModel;
use crate::apply::step;
use crate::ids::{Epoch, NodeId, TableName, TabletId};
use crate::meta::MetadataModel;
use crate::policy::PlacementPolicy;
use crate::rows::{BackupId, NodeAddrs, NodeStatus, PitrRestorePlan, RestoreId};
use crate::schema::{
    IndexDef, IndexStatus, ProvisionedThroughput, StreamSpec, StreamViewType, TableSchema, TtlSpec,
};
use crate::sorted_map::SortedMap;
use crate::value::Value;
use vstd::prelude::*;

verus! {

/// A change to the metadata.
#[derive(Debug, PartialEq, Eq)]
#[allow(inconsistent_fields)]
pub enum MetaCommand {
    /// Changes nothing; a fresh leader commits one.
    NoOp,
    /// Inserts or updates a member.
    UpsertMember { node: NodeId, labels: SortedMap<String, String>, status: NodeStatus },
    /// Creates a tablet, the first one of `table` if it is scoped to one.
    CreateTablet {
        tablet: TabletId,
        table: Option<TableName>,
        range: crate::tablet::KeyRange,
        replicas: Vec<NodeId>,
    },
    /// Replaces a tablet's replica set, if its epoch is the expected one, and raises the epoch.
    CasTabletReplicas { tablet: TabletId, expected_epoch: Epoch, replicas: Vec<NodeId> },
    /// Records on an active tablet that it splits at `split_key` into `children`, left half first.
    BeginSplitInPlace {
        parent: TabletId,
        expected_epoch: Epoch,
        split_key: Vec<u8>,
        children: [(TabletId, Vec<NodeId>); 2],
    },
    /// Completes a split: the two children take the place of their parent.
    CutoverSplit { parent: TabletId, expected_epoch: Epoch, cutover_wall_ms: u64 },
    /// Records that a split child has reached its placement.
    MarkSplitPlacingDone { tablet: TabletId, expected_epoch: Epoch },
    /// Replaces the placement that a split child is to reach.
    RetargetSplitPlacing {
        tablet: TabletId,
        expected_epoch: Epoch,
        target: Option<Vec<NodeId>>,
    },
    /// Sets a tablet's placement policy, or clears it.
    SetTabletPolicy { tablet: TabletId, policy: Option<PlacementPolicy> },
    /// Registers the schema of a new table.
    CreateTableSchema { table: TableName, schema: TableSchema },
    /// Removes a table's schema.
    DropTableSchema { table: TableName },
    /// Replaces the schema of a table that has one.
    ReplaceTableSchema { table: TableName, schema: TableSchema },
    /// Removes every tablet of a table, with what hangs on those tablets.
    DropTableTablets { table: TableName },
    /// Adds an index to a table's schema, or replaces the one of that name.
    CreateTableIndex { table: TableName, index: IndexDef },
    /// Removes an index from a table's schema.
    DropTableIndex { table: TableName, index: String },
    /// Sets the status of a table's index.
    SetIndexStatus { table: TableName, index: String, status: IndexStatus },
    /// Records that a tablet has finished backfilling an index.
    MarkIndexBackfilled { table: TableName, index: String, tablet: TabletId },
    /// Enables a table's change stream under a fresh label, or disables it.
    SetTableStream { table: TableName, spec: Option<StreamSpec> },
    /// Sets a table's row expiry, or disables it.
    SetTableTtl { table: TableName, spec: Option<TtlSpec> },
    /// Sets a table's provisioned throughput, or returns it to pay-per-request.
    SetTableThroughput { table: TableName, spec: Option<ProvisionedThroughput> },
    /// Adds or overwrites tags of a table.
    TagResource { table: TableName, tags: SortedMap<String, String> },
    /// Removes tags of a table.
    UntagResource { table: TableName, tag_keys: Vec<String> },
    /// Enables a table's point-in-time recovery under a fresh generation, or disables it.
    UpdateContinuousBackups { table: TableName, enabled: bool, wall_ms: u64 },
    /// Records a sealed stream segment, or moves the replicas of one that is recorded.
    SealStreamShard {
        table: TableName,
        label: String,
        tablet: TabletId,
        epoch: u64,
        view_type: StreamViewType,
        hlc_range: (u64, u64),
        count: u64,
        seal_wall_ms: u64,
        replicas: Vec<NodeId>,
        object_id: String,
    },
    /// Marks stream segments as expired, or removes them.
    ExpireStreamShards { rows: Vec<(TabletId, u64)>, remove: bool },
    /// Records a sealed recovery segment, or moves the replicas of one that is recorded.
    SealPitrSegment {
        table: TableName,
        generation: u64,
        tablet: TabletId,
        epoch: u64,
        hlc_range: (u64, u64),
        count: u64,
        seal_wall_ms: u64,
        replicas: Vec<NodeId>,
        object_id: String,
    },
    /// Marks recovery segments as expired, or removes them.
    ExpirePitrSegments { rows: Vec<(TabletId, u64)>, remove: bool },
    /// Registers the address of a consensus-group member, and the tablet that it serves.
    RegisterCpAddr { id: NodeId, addr: String, tablet: Option<TabletId> },
    /// Updates the address book of a node that is already known.
    RegisterNodeAddrs { node: NodeId, addrs: NodeAddrs },
    /// Removes a drained member with its addresses.
    RemoveMember { node: NodeId },
    /// Claims a node identity: its address book and, unless it is a control node, its membership.
    RegisterNode { node: NodeId, addrs: NodeAddrs, labels: SortedMap<String, String> },
    /// Begins a backup of a table.
    BeginBackup {
        backup_id: BackupId,
        table: TableName,
        created_wall_ms: u64,
        backup_name: String,
        pitr_base: bool,
    },
    /// Records that a tablet has captured its share of a backup.
    RecordBackupTabletComplete {
        backup_id: BackupId,
        tablet: TabletId,
        cut_version: u64,
        bytes: u64,
    },
    /// Completes a backup whose every tablet has been captured.
    CompleteBackup { backup_id: BackupId },
    /// Gives a backup up.
    FailBackup { backup_id: BackupId, reason: String },
    /// Removes a backup with its progress records.
    DeleteBackup { backup_id: BackupId },
    /// Marks a finished backup for reclaim.
    MarkBackupDeleted { backup_id: BackupId },
    /// Begins a restore into one fresh tablet of `target_table`.
    BeginRestore {
        restore_id: RestoreId,
        backup_id: BackupId,
        source_table: TableName,
        target_table: TableName,
        tablet: TabletId,
        replicas: Vec<NodeId>,
        gsi_defs: Vec<IndexDef>,
        pitr: Option<PitrRestorePlan>,
    },
    /// Completes a restore: its tablet starts to serve.
    CompleteRestore { restore_id: RestoreId },
    /// Gives a restore up.
    FailRestore { restore_id: RestoreId, reason: String },
}

impl Clone for MetaCommand {
    fn clone(&self) -> (r: Self)
        ensures
            forall|m: MetadataModel, a: AdviceModel| #[trigger] step(m, r, a) == step(m, *self, a),
    {
        match self {
            MetaCommand::NoOp => MetaCommand::NoOp,
            MetaCommand::UpsertMember { node, labels, status } => MetaCommand::UpsertMember {
                node: node.dup(),
                labels: labels.dup(),
                status: *status,
            },
            MetaCommand::CreateTablet { tablet, table, range, replicas } => {
                MetaCommand::CreateTablet {
                    tablet: *tablet,
                    table: table.dup(),
                    range: range.dup(),
                    replicas: replicas.dup(),
                }
            },
            MetaCommand::CasTabletReplicas { tablet, expected_epoch, replicas } => {
                MetaCommand::CasTabletReplicas {
                    tablet: *tablet,
                    expected_epoch: *expected_epoch,
                    replicas: replicas.dup(),
                }
            },
            MetaCommand::BeginSplitInPlace { parent, expected_epoch, split_key, children } => {
                MetaCommand::BeginSplitInPlace {
                    parent: *parent,
                    expected_epoch: *expected_epoch,
                    split_key: split_key.dup(),
                    children: [
                        (children[0].0, children[0].1.dup()),
                        (children[1].0, children[1].1.dup()),
                    ],
                }
            },
            MetaCommand::CutoverSplit { parent, expected_epoch, cutover_wall_ms } => {
                MetaCommand::CutoverSplit {
                    parent: *parent,
                    expected_epoch: *expected_epoch,
                    cutover_wall_ms: *cutover_wall_ms,
                }
            },
            MetaCommand::MarkSplitPlacingDone { tablet, expected_epoch } => {
                MetaCommand::MarkSplitPlacingDone {
                    tablet: *tablet,
                    expected_epoch: *expected_epoch,
                }
            },
            MetaCommand::RetargetSplitPlacing { tablet, expected_epoch, target } => {
                MetaCommand::RetargetSplitPlacing {
                    tablet: *tablet,
                    expected_epoch: *expected_epoch,
                    target: target.dup(),
                }
            },
            MetaCommand::SetTabletPolicy { tablet, policy } => MetaCommand::SetTabletPolicy {
                tablet: *tablet,
                policy: policy.dup(),
            },
            MetaCommand::CreateTableSchema { table, schema } => MetaCommand::CreateTableSchema {
                table: table.dup(),
                schema: schema.dup(),
            },
            MetaCommand::DropTableSchema { table } => MetaCommand::DropTableSchema {
                table: table.dup(),
            },
            MetaCommand::ReplaceTableSchema { table, schema } => MetaCommand::ReplaceTableSchema {
                table: table.dup(),
                schema: schema.dup(),
            },
            MetaCommand::DropTableTablets { table } => MetaCommand::DropTableTablets {
                table: table.dup(),
            },
            MetaCommand::CreateTableIndex { table, index } => MetaCommand::CreateTableIndex {
                table: table.dup(),
                index: index.dup(),
            },
            MetaCommand::DropTableIndex { table, index } => MetaCommand::DropTableIndex {
                table: table.dup(),
                index: index.dup(),
            },
            MetaCommand::SetIndexStatus { table, index, status } => MetaCommand::SetIndexStatus {
                table: table.dup(),
                index: index.dup(),
                status: *status,
            },
            MetaCommand::MarkIndexBackfilled { table, index, tablet } => {
                MetaCommand::MarkIndexBackfilled {
                    table: table.dup(),
                    index: index.dup(),
                    tablet: *tablet,
                }
            },
            MetaCommand::SetTableStream { table, spec } => MetaCommand::SetTableStream {
                table: table.dup(),
                spec: spec.dup(),
            },
            MetaCommand::SetTableTtl { table, spec } => MetaCommand::SetTableTtl {
                table: table.dup(),
                spec: spec.dup(),
            },
            MetaCommand::SetTableThroughput { table, spec } => MetaCommand::SetTableThroughput {
                table: table.dup(),
                spec: spec.dup(),
            },
            MetaCommand::TagResource { table, tags } => MetaCommand::TagResource {
                table: table.dup(),
                tags: tags.dup(),
            },
            MetaCommand::UntagResource { table, tag_keys } => MetaCommand::UntagResource {
                table: table.dup(),
                tag_keys: tag_keys.dup(),
            },
            MetaCommand::UpdateContinuousBackups { table, enabled, wall_ms } => {
                MetaCommand::UpdateContinuousBackups {
                    table: table.dup(),
                    enabled: *enabled,
                    wall_ms: *wall_ms,
                }
            },
            MetaCommand::SealStreamShard {
                table,
                label,
                tablet,
                epoch,
                view_type,
                hlc_range,
                count,
                seal_wall_ms,
                replicas,
                object_id,
            } => MetaCommand::SealStreamShard {
                table: table.dup(),
                label: label.dup(),
                tablet: *tablet,
                epoch: *epoch,
                view_type: *view_type,
                hlc_range: *hlc_range,
                count: *count,
                seal_wall_ms: *seal_wall_ms,
                replicas: replicas.dup(),
                object_id: object_id.dup(),
            },
            MetaCommand::ExpireStreamShards { rows, remove } => MetaCommand::ExpireStreamShards {
                rows: rows.dup(),
                remove: *remove,
            },
            MetaCommand::SealPitrSegment {
                table,
                generation,
                tablet,
                epoch,
                hlc_range,
                count,
                seal_wall_ms,
                replicas,
                object_id,
            } => MetaCommand::SealPitrSegment {
                table: table.dup(),
                generation: *generation,
                tablet: *tablet,
                epoch: *epoch,
                hlc_range: *hlc_range,
                count: *count,
                seal_wall_ms: *seal_wall_ms,
                replicas: replicas.dup(),
                object_id: object_id.dup(),
            },
            MetaCommand::ExpirePitrSegments { rows, remove } => MetaCommand::ExpirePitrSegments {
                rows: rows.dup(),
                remove: *remove,
            },
            MetaCommand::RegisterCpAddr { id, addr, tablet } => MetaCommand::RegisterCpAddr {
                id: id.dup(),
                addr: addr.dup(),
                tablet: *tablet,
            },
            MetaCommand::RegisterNodeAddrs { node, addrs } => MetaCommand::RegisterNodeAddrs {
                node: node.dup(),
                addrs: addrs.dup(),
            },
            MetaCommand::RemoveMember { node } => MetaCommand::RemoveMember {
                node: node.dup(),
            },
            MetaCommand::RegisterNode { node, addrs, labels } => MetaCommand::RegisterNode {
                node: node.dup(),
                addrs: addrs.dup(),
                labels: labels.dup(),
            },
            MetaCommand::BeginBackup {
                backup_id,
                table,
                created_wall_ms,
                backup_name,
                pitr_base,
            } => MetaCommand::BeginBackup {
                backup_id: backup_id.dup(),
                table: table.dup(),
                created_wall_ms: *created_wall_ms,
                backup_name: backup_name.dup(),
                pitr_base: *pitr_base,
            },
            MetaCommand::RecordBackupTabletComplete { backup_id, tablet, cut_version, bytes } => {
                MetaCommand::RecordBackupTabletComplete {
                    backup_id: backup_id.dup(),
                    tablet: *tablet,
                    cut_version: *cut_version,
                    bytes: *bytes,
                }
            },
            MetaCommand::CompleteBackup { backup_id } => MetaCommand::CompleteBackup {
                backup_id: backup_id.dup(),
            },
            MetaCommand::FailBackup { backup_id, reason } => MetaCommand::FailBackup {
                backup_id: backup_id.dup(),
                reason: reason.dup(),
            },
            MetaCommand::DeleteBackup { backup_id } => MetaCommand::DeleteBackup {
                backup_id: backup_id.dup(),
            },
            MetaCommand::MarkBackupDeleted { backup_id } => MetaCommand::MarkBackupDeleted {
                backup_id: backup_id.dup(),
            },
            MetaCommand::BeginRestore {
                restore_id,
                backup_id,
                source_table,
                target_table,
                tablet,
                replicas,
                gsi_defs,
                pitr,
            } => MetaCommand::BeginRestore {
                restore_id: restore_id.dup(),
                backup_id: backup_id.dup(),
                source_table: source_table.dup(),
                target_table: target_table.dup(),
                tablet: *tablet,
                replicas: replicas.dup(),
                gsi_defs: gsi_defs.dup(),
                pitr: pitr.dup(),
            },
            MetaCommand::CompleteRestore { restore_id } => MetaCommand::CompleteRestore {
                restore_id: restore_id.dup(),
            },
            MetaCommand::FailRestore { restore_id, reason } => MetaCommand::FailRestore {
                restore_id: restore_id.dup(),
                reason: reason.dup(),
            },
        }
    }
}

/// What came of a command.
#[derive(Clone, Copy, Debug, PartialEq, Eq)]
pub enum ApplyOutcome {
    /// The command changed the state.
    Applied,
    /// The command had nothing to change.
    NoOp,
    /// A precondition of the command failed; the state is unchanged.
    Rejected(&'static str),
}

} // verus!
