//! Two values that are mathematically the same agree in every part.
use crate::advice::Advice;
use crate::delta_ring::DeltaEntry;
use crate::entity::CpMemberAddrEntry;
use crate::meta::Metadata;
use crate::mirror::KeyWrite;
use crate::placement::{PlacementEntry, PlacementView, PlacingQuestion};
use crate::policy::{Candidate, PlacementPolicy};
use crate::rows::{
    BackupManifest, BackupPinnedTablet, BackupRow, BackupStatus, Member, NodeAddrs,
    PitrReplaySegmentRef, PitrRestorePlan, PitrSegmentRow, RestoreRow, RestoreStatus, SplitPlacing,
    StreamShardRow,
};
use crate::schema::{ColumnDef, IndexDef, IndexProjection, StreamSpec, TableSchema, TtlSpec};
use crate::tablet::{InPlaceSplitIntent, KeyRange, SplitChild, Tablet};
use vstd::prelude::*;

verus! {

/// The mathematical value of a member leaves nothing of it out.
pub proof fn a_member_is_the_sum_of_its_parts(a: Member, b: Member)
    requires
        a.deep_view() == b.deep_view(),
    ensures
        a.labels.deep_view() == b.labels.deep_view(),
        a.status == b.status,
        a.has_activated == b.has_activated,
{
}

/// The mathematical value of an address book leaves nothing of it out.
pub proof fn an_address_book_is_the_sum_of_its_parts(a: NodeAddrs, b: NodeAddrs)
    requires
        a.deep_view() == b.deep_view(),
    ensures
        a.internal.deep_view() == b.internal.deep_view(),
        a.client.deep_view() == b.client.deep_view(),
        a.intra.deep_view() == b.intra.deep_view(),
        a.admin.deep_view() == b.admin.deep_view(),
        a.role.deep_view() == b.role.deep_view(),
{
}

/// The mathematical value of a placement obligation leaves nothing of it out.
pub proof fn a_placement_obligation_is_the_sum_of_its_parts(a: SplitPlacing, b: SplitPlacing)
    requires
        a.deep_view() == b.deep_view(),
    ensures
        a.target.deep_view() == b.target.deep_view(),
        a.done == b.done,
{
}

/// The mathematical value of a stream segment leaves nothing of it out.
pub proof fn a_stream_segment_is_the_sum_of_its_parts(a: StreamShardRow, b: StreamShardRow)
    requires
        a.deep_view() == b.deep_view(),
    ensures
        a.table.deep_view() == b.table.deep_view(),
        a.label.deep_view() == b.label.deep_view(),
        a.view_type == b.view_type,
        a.hlc_range == b.hlc_range,
        a.count == b.count,
        a.seal_wall_ms == b.seal_wall_ms,
        a.replicas.deep_view() == b.replicas.deep_view(),
        a.object_id.deep_view() == b.object_id.deep_view(),
        a.expired == b.expired,
{
}

/// The mathematical value of a recovery segment leaves nothing of it out.
pub proof fn a_recovery_segment_is_the_sum_of_its_parts(a: PitrSegmentRow, b: PitrSegmentRow)
    requires
        a.deep_view() == b.deep_view(),
    ensures
        a.table.deep_view() == b.table.deep_view(),
        a.generation == b.generation,
        a.hlc_range == b.hlc_range,
        a.count == b.count,
        a.seal_wall_ms == b.seal_wall_ms,
        a.replicas.deep_view() == b.replicas.deep_view(),
        a.object_id.deep_view() == b.object_id.deep_view(),
        a.expired == b.expired,
{
}

/// The mathematical value of a pin leaves nothing of it out.
pub proof fn a_pin_is_the_sum_of_its_parts(a: BackupPinnedTablet, b: BackupPinnedTablet)
    requires
        a.deep_view() == b.deep_view(),
    ensures
        a.tablet == b.tablet,
        a.range.deep_view() == b.range.deep_view(),
{
}

/// The mathematical value of a manifest leaves nothing of it out.
pub proof fn a_manifest_is_the_sum_of_its_parts(a: BackupManifest, b: BackupManifest)
    requires
        a.deep_view() == b.deep_view(),
    ensures
        a.schema.deep_view() == b.schema.deep_view(),
        a.pinned_tablets.deep_view() == b.pinned_tablets.deep_view(),
        a.created_wall_ms == b.created_wall_ms,
{
}

/// The mathematical value of a backup leaves nothing of it out.
pub proof fn a_backup_is_the_sum_of_its_parts(a: BackupRow, b: BackupRow)
    requires
        a.deep_view() == b.deep_view(),
    ensures
        a.table.deep_view() == b.table.deep_view(),
        a.backup_name.deep_view() == b.backup_name.deep_view(),
        a.status.deep_view() == b.status.deep_view(),
        a.manifest.deep_view() == b.manifest.deep_view(),
        a.total_bytes == b.total_bytes,
{
}

/// The mathematical value of a replay reference leaves nothing of it out.
pub proof fn a_replay_reference_is_the_sum_of_its_parts(
    a: PitrReplaySegmentRef,
    b: PitrReplaySegmentRef,
)
    requires
        a.deep_view() == b.deep_view(),
    ensures
        a.tablet == b.tablet,
        a.epoch == b.epoch,
        a.object_id.deep_view() == b.object_id.deep_view(),
        a.replay_range == b.replay_range,
{
}

/// The mathematical value of a recovery plan leaves nothing of it out.
pub proof fn a_recovery_plan_is_the_sum_of_its_parts(a: PitrRestorePlan, b: PitrRestorePlan)
    requires
        a.deep_view() == b.deep_view(),
    ensures
        a.target_wall_ms == b.target_wall_ms,
        a.segments.deep_view() == b.segments.deep_view(),
{
}

/// The mathematical value of a restore leaves nothing of it out.
pub proof fn a_restore_is_the_sum_of_its_parts(a: RestoreRow, b: RestoreRow)
    requires
        a.deep_view() == b.deep_view(),
    ensures
        a.backup_id.deep_view() == b.backup_id.deep_view(),
        a.source_table.deep_view() == b.source_table.deep_view(),
        a.target_table.deep_view() == b.target_table.deep_view(),
        a.tablet == b.tablet,
        a.gsi_defs.deep_view() == b.gsi_defs.deep_view(),
        a.pitr.deep_view() == b.pitr.deep_view(),
        a.status.deep_view() == b.status.deep_view(),
{
}

/// The mathematical value of a column leaves nothing of it out.
pub proof fn a_column_is_the_sum_of_its_parts(a: ColumnDef, b: ColumnDef)
    requires
        a.deep_view() == b.deep_view(),
    ensures
        a.name.deep_view() == b.name.deep_view(),
        a.ty == b.ty,
{
}

/// The mathematical value of an index leaves nothing of it out.
pub proof fn an_index_is_the_sum_of_its_parts(a: IndexDef, b: IndexDef)
    requires
        a.deep_view() == b.deep_view(),
    ensures
        a.name.deep_view() == b.name.deep_view(),
        a.kind == b.kind,
        a.hash_attribute.deep_view() == b.hash_attribute.deep_view(),
        a.sort_attribute.deep_view() == b.sort_attribute.deep_view(),
        a.projection.deep_view() == b.projection.deep_view(),
        a.status == b.status,
        a.hash_attribute_type == b.hash_attribute_type,
        a.sort_attribute_type == b.sort_attribute_type,
{
}

/// The mathematical value of a stream leaves nothing of it out.
pub proof fn a_stream_is_the_sum_of_its_parts(a: StreamSpec, b: StreamSpec)
    requires
        a.deep_view() == b.deep_view(),
    ensures
        a.view_type == b.view_type,
        a.label.deep_view() == b.label.deep_view(),
{
}

/// The mathematical value of a row expiry leaves nothing of it out.
pub proof fn a_row_expiry_is_the_sum_of_its_parts(a: TtlSpec, b: TtlSpec)
    requires
        a.deep_view() == b.deep_view(),
    ensures
        a.attribute_name.deep_view() == b.attribute_name.deep_view(),
{
}

/// The mathematical value of a schema leaves nothing of it out.
pub proof fn a_schema_is_the_sum_of_its_parts(a: TableSchema, b: TableSchema)
    requires
        a.deep_view() == b.deep_view(),
    ensures
        a.partition_key.deep_view() == b.partition_key.deep_view(),
        a.sort_keys.deep_view() == b.sort_keys.deep_view(),
        a.columns.deep_view() == b.columns.deep_view(),
        a.indexes.deep_view() == b.indexes.deep_view(),
        a.stream.deep_view() == b.stream.deep_view(),
        a.ttl.deep_view() == b.ttl.deep_view(),
        a.throughput == b.throughput,
        a.pitr == b.pitr,
        a.tags.deep_view() == b.tags.deep_view(),
{
}

/// The mathematical value of a range leaves nothing of it out.
pub proof fn a_range_is_the_sum_of_its_parts(a: KeyRange, b: KeyRange)
    requires
        a.deep_view() == b.deep_view(),
    ensures
        a.start.deep_view() == b.start.deep_view(),
        a.end.deep_view() == b.end.deep_view(),
{
}

/// The mathematical value of a split child leaves nothing of it out.
pub proof fn a_split_child_is_the_sum_of_its_parts(a: SplitChild, b: SplitChild)
    requires
        a.deep_view() == b.deep_view(),
    ensures
        a.id == b.id,
        a.replicas.deep_view() == b.replicas.deep_view(),
{
}

/// The mathematical value of a split leaves nothing of it out.
pub proof fn a_split_is_the_sum_of_its_parts(a: InPlaceSplitIntent, b: InPlaceSplitIntent)
    requires
        a.deep_view() == b.deep_view(),
    ensures
        a.split_key.deep_view() == b.split_key.deep_view(),
        a.children[0].deep_view() == b.children[0].deep_view(),
        a.children[1].deep_view() == b.children[1].deep_view(),
{
}

/// The mathematical value of a tablet leaves nothing of it out.
pub proof fn a_tablet_is_the_sum_of_its_parts(a: Tablet, b: Tablet)
    requires
        a.deep_view() == b.deep_view(),
    ensures
        a.id == b.id,
        a.table.deep_view() == b.table.deep_view(),
        a.range.deep_view() == b.range.deep_view(),
        a.replicas.deep_view() == b.replicas.deep_view(),
        a.epoch == b.epoch,
        a.state == b.state,
        a.inplace_split.deep_view() == b.inplace_split.deep_view(),
{
}

/// The mathematical value of a policy leaves nothing of it out.
pub proof fn a_policy_is_the_sum_of_its_parts(a: PlacementPolicy, b: PlacementPolicy)
    requires
        a.deep_view() == b.deep_view(),
    ensures
        a.name.deep_view() == b.name.deep_view(),
        a.replicas == b.replicas,
        a.constraints.deep_view() == b.constraints.deep_view(),
{
}

/// The mathematical value of a candidate leaves nothing of it out.
pub proof fn a_candidate_is_the_sum_of_its_parts(a: Candidate, b: Candidate)
    requires
        a.deep_view() == b.deep_view(),
    ensures
        a.node.deep_view() == b.node.deep_view(),
        a.labels.deep_view() == b.labels.deep_view(),
{
}

/// The mathematical value of a placement view leaves nothing of it out.
pub proof fn a_placement_view_is_the_sum_of_its_parts(a: PlacementView, b: PlacementView)
    requires
        a.deep_view() == b.deep_view(),
    ensures
        a.members.deep_view() == b.members.deep_view(),
        a.tablets.deep_view() == b.tablets.deep_view(),
        a.policies.deep_view() == b.policies.deep_view(),
        a.split_placing.deep_view() == b.split_placing.deep_view(),
{
}

/// The mathematical value of a placement entry leaves nothing of it out.
pub proof fn a_placement_entry_is_the_sum_of_its_parts(a: PlacementEntry, b: PlacementEntry)
    requires
        a.deep_view() == b.deep_view(),
    ensures
        a.tablet == b.tablet,
        a.replicas.deep_view() == b.replicas.deep_view(),
        a.policy.deep_view() == b.policy.deep_view(),
{
}

/// The mathematical value of a placing question leaves nothing of it out.
pub proof fn a_placing_question_is_the_sum_of_its_parts(a: PlacingQuestion, b: PlacingQuestion)
    requires
        a.deep_view() == b.deep_view(),
    ensures
        a.tablet == b.tablet,
        a.current.deep_view() == b.current.deep_view(),
        a.policy.deep_view() == b.policy.deep_view(),
{
}

/// The mathematical value of metadata leaves nothing of it out.
pub proof fn metadata_is_the_sum_of_its_parts(a: Metadata, b: Metadata)
    requires
        a.deep_view() == b.deep_view(),
    ensures
        a.members.deep_view() == b.members.deep_view(),
        a.tablets.deep_view() == b.tablets.deep_view(),
        a.policies.deep_view() == b.policies.deep_view(),
        a.schemas.deep_view() == b.schemas.deep_view(),
        a.cp_member_addrs.deep_view() == b.cp_member_addrs.deep_view(),
        a.cp_member_tablets.deep_view() == b.cp_member_tablets.deep_view(),
        a.next_tablet_id == b.next_tablet_id,
        a.node_addrs.deep_view() == b.node_addrs.deep_view(),
        a.split_lineage.deep_view() == b.split_lineage.deep_view(),
        a.split_placing.deep_view() == b.split_placing.deep_view(),
        a.stream_shards.deep_view() == b.stream_shards.deep_view(),
        a.index_backfill.deep_view() == b.index_backfill.deep_view(),
        a.backups.deep_view() == b.backups.deep_view(),
        a.backup_tablet_progress.deep_view() == b.backup_tablet_progress.deep_view(),
        a.restores.deep_view() == b.restores.deep_view(),
        a.pitr_segments.deep_view() == b.pitr_segments.deep_view(),
        a.pitr_generation.deep_view() == b.pitr_generation.deep_view(),
        a.pitr_base_backups.deep_view() == b.pitr_base_backups.deep_view(),
{
}

/// The mathematical value of advice leaves nothing of it out.
pub proof fn advice_is_the_sum_of_its_parts(a: Advice, b: Advice)
    requires
        a.deep_view() == b.deep_view(),
    ensures
        a.schema_valid == b.schema_valid,
        a.selection.deep_view() == b.selection.deep_view(),
{
}

/// The mathematical value of a group address leaves nothing of it out.
pub proof fn a_group_address_is_the_sum_of_its_parts(a: CpMemberAddrEntry, b: CpMemberAddrEntry)
    requires
        a.deep_view() == b.deep_view(),
    ensures
        a.addr.deep_view() == b.addr.deep_view(),
        a.tablet == b.tablet,
{
}

/// The mathematical value of a backup status leaves nothing of it out.
pub proof fn a_backup_status_is_the_sum_of_its_parts(a: BackupStatus, b: BackupStatus)
    requires
        a.deep_view() == b.deep_view(),
    ensures
        a is Creating <==> b is Creating,
        a is Available <==> b is Available,
        a is Expired <==> b is Expired,
        a is Failed <==> b is Failed,
        a is Failed ==> a->Failed_reason.deep_view() == b->Failed_reason.deep_view(),
{
}

/// The mathematical value of a restore status leaves nothing of it out.
pub proof fn a_restore_status_is_the_sum_of_its_parts(a: RestoreStatus, b: RestoreStatus)
    requires
        a.deep_view() == b.deep_view(),
    ensures
        a is Seeding <==> b is Seeding,
        a is Done <==> b is Done,
        a is Failed <==> b is Failed,
        a is Failed ==> a->Failed_reason.deep_view() == b->Failed_reason.deep_view(),
{
}

/// The mathematical value of a projection leaves nothing of it out.
pub proof fn a_projection_is_the_sum_of_its_parts(a: IndexProjection, b: IndexProjection)
    requires
        a.deep_view() == b.deep_view(),
    ensures
        a is All <==> b is All,
        a is KeysOnly <==> b is KeysOnly,
        a is Include <==> b is Include,
        a is Include ==> a->Include_0.deep_view() == b->Include_0.deep_view(),
{
}

/// The mathematical value of a change to a keyspace leaves nothing of it out.
pub proof fn a_change_is_the_sum_of_its_parts(a: KeyWrite, b: KeyWrite)
    requires
        a.deep_view() == b.deep_view(),
    ensures
        a is Put <==> b is Put,
        a is Put ==> a->Put_0.deep_view() == b->Put_0.deep_view(),
        a is Put ==> a->Put_1.deep_view() == b->Put_1.deep_view(),
        a is Delete ==> a->Delete_0.deep_view() == b->Delete_0.deep_view(),
{
}

/// The mathematical value of the changes made at one index leaves nothing of it out.
pub proof fn a_delta_is_the_sum_of_its_parts(a: DeltaEntry, b: DeltaEntry)
    requires
        a.deep_view() == b.deep_view(),
    ensures
        a.index == b.index,
        a.writes.deep_view() == b.writes.deep_view(),
{
}

} // verus!
