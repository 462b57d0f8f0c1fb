//! Applying commands: what each does to the metadata, and what it answers.
use crate::advice::{Advice, AdviceModel};
use crate::command::{ApplyOutcome, MetaCommand};
use crate::meta::{Metadata, MetadataModel};
use crate::placement::{active_candidates, candidates};
use crate::policy::{Candidate, CandidateModel, PlacementPolicy, PlacementPolicyModel};
use crate::rows::{
    BackupTabletProgress, PitrSegmentRow, PitrSegmentRowModel, RestoreRow, RestoreRowModel,
    RestoreStatus, RestoreStatusModel, StreamShardRow, StreamShardRowModel,
};
use crate::schema::{with_index, TableSchema, TableSchemaModel};
use crate::value::Value;
use crate::{backups, membership, pitr, restores, splits, streams, tables, tablet_map};
use vstd::prelude::*;

verus! {

/// What a command does to the metadata, and what it answers. The answer and the new state are
/// functions of the old state, the command and the advice alone.
pub open spec fn step(m: MetadataModel, c: MetaCommand, a: AdviceModel) -> (
    MetadataModel,
    ApplyOutcome,
) {
    match c {
        MetaCommand::NoOp => (m, ApplyOutcome::NoOp),
        MetaCommand::UpsertMember { node, labels, status } => {
            membership::upsert_member(m, node.deep_view(), labels@, status)
        },
        MetaCommand::CreateTablet { tablet, table, range, replicas } => tablet_map::create_tablet(
            m,
            tablet,
            table.deep_view(),
            range.deep_view(),
            replicas.deep_view(),
        ),
        MetaCommand::CasTabletReplicas { tablet, expected_epoch, replicas } => {
            tablet_map::cas_tablet_replicas(m, tablet, expected_epoch, replicas.deep_view())
        },
        MetaCommand::BeginSplitInPlace { parent, expected_epoch, split_key, children } => {
            splits::begin_split_in_place(
                m,
                parent,
                expected_epoch,
                splits::intent_of(split_key, children),
            )
        },
        MetaCommand::CutoverSplit { parent, expected_epoch, cutover_wall_ms } => {
            splits::cutover_split(m, parent, expected_epoch, cutover_wall_ms, a.selection)
        },
        MetaCommand::MarkSplitPlacingDone { tablet, expected_epoch } => {
            splits::mark_split_placing_done(m, tablet, expected_epoch)
        },
        MetaCommand::RetargetSplitPlacing { tablet, expected_epoch, target } => {
            splits::retarget_split_placing(m, tablet, expected_epoch, target.deep_view())
        },
        MetaCommand::SetTabletPolicy { tablet, policy } => {
            tablet_map::set_tablet_policy(m, tablet, policy.deep_view())
        },
        MetaCommand::CreateTableSchema { table, schema } => {
            tables::create_table_schema(m, table@, schema.deep_view(), a.schema_valid)
        },
        MetaCommand::DropTableSchema { table } => tables::drop_table_schema(m, table@),
        MetaCommand::ReplaceTableSchema { table, schema } => {
            tables::replace_table_schema(m, table@, schema.deep_view(), a.schema_valid)
        },
        MetaCommand::DropTableTablets { table } => tablet_map::drop_table_tablets(m, table@),
        MetaCommand::CreateTableIndex { table, index } => {
            tables::create_table_index(m, table@, index.deep_view(), a.schema_valid)
        },
        MetaCommand::DropTableIndex { table, index } => tables::drop_table_index(m, table@, index@),
        MetaCommand::SetIndexStatus { table, index, status } => {
            tables::set_index_status(m, table@, index@, status)
        },
        MetaCommand::MarkIndexBackfilled { table, index, tablet } => {
            tables::mark_index_backfilled(m, table@, index@, tablet)
        },
        MetaCommand::SetTableStream { table, spec } => {
            tables::set_table_stream(m, table@, spec.deep_view())
        },
        MetaCommand::SetTableTtl { table, spec } => {
            tables::set_table_ttl(m, table@, spec.deep_view())
        },
        MetaCommand::SetTableThroughput { table, spec } => {
            tables::set_table_throughput(m, table@, spec)
        },
        MetaCommand::TagResource { table, tags } => tables::tag_resource(m, table@, tags@),
        MetaCommand::UntagResource { table, tag_keys } => {
            tables::untag_resource(m, table@, tag_keys.deep_view())
        },
        MetaCommand::UpdateContinuousBackups { table, enabled, wall_ms } => {
            pitr::update_continuous_backups(m, table@, enabled, wall_ms)
        },
        MetaCommand::SealStreamShard {
            table,
            label,
            tablet,
            epoch,
            view_type,
            hlc_range,
            count,
            seal_wall_ms,
            replicas,
            object_id,
        } => streams::seal_stream_shard(
            m,
            tablet,
            epoch,
            StreamShardRowModel {
                table: table@,
                label: label@,
                view_type,
                hlc_range,
                count,
                seal_wall_ms,
                replicas: replicas.deep_view(),
                object_id: object_id@,
                expired: false,
            },
        ),
        MetaCommand::ExpireStreamShards { rows, remove } => {
            streams::expire_stream_shards(m, rows.deep_view(), remove)
        },
        MetaCommand::SealPitrSegment {
            table,
            generation,
            tablet,
            epoch,
            hlc_range,
            count,
            seal_wall_ms,
            replicas,
            object_id,
        } => pitr::seal_pitr_segment(
            m,
            tablet,
            epoch,
            PitrSegmentRowModel {
                table: table@,
                generation,
                hlc_range,
                count,
                seal_wall_ms,
                replicas: replicas.deep_view(),
                object_id: object_id@,
                expired: false,
            },
        ),
        MetaCommand::ExpirePitrSegments { rows, remove } => {
            pitr::expire_pitr_segments(m, rows.deep_view(), remove)
        },
        MetaCommand::RegisterCpAddr { id, addr, tablet } => {
            membership::register_cp_addr(m, id.deep_view(), addr@, tablet)
        },
        MetaCommand::RegisterNodeAddrs { node, addrs } => {
            membership::register_node_addrs(m, node.deep_view(), addrs.deep_view())
        },
        MetaCommand::RemoveMember { node } => membership::remove_member(m, node.deep_view()),
        MetaCommand::RegisterNode { node, addrs, labels } => {
            membership::register_node(m, node.deep_view(), addrs.deep_view(), labels@)
        },
        MetaCommand::BeginBackup { backup_id, table, created_wall_ms, backup_name, pitr_base } => {
            backups::begin_backup(m, backup_id@, table@, created_wall_ms, backup_name@, pitr_base)
        },
        MetaCommand::RecordBackupTabletComplete { backup_id, tablet, cut_version, bytes } => {
            backups::record_backup_tablet_complete(
                m,
                backup_id@,
                tablet,
                BackupTabletProgress { cut_version, bytes },
            )
        }
        MetaCommand::CompleteBackup { backup_id } => backups::complete_backup(m, backup_id@),
        MetaCommand::FailBackup { backup_id, reason } => {
            backups::fail_backup(m, backup_id@, reason@)
        },
        MetaCommand::DeleteBackup { backup_id } => backups::delete_backup(m, backup_id@),
        MetaCommand::MarkBackupDeleted { backup_id } => backups::mark_backup_deleted(m, backup_id@),
        MetaCommand::BeginRestore {
            restore_id,
            backup_id,
            source_table,
            target_table,
            tablet,
            replicas,
            gsi_defs,
            pitr,
        } => restores::begin_restore(
            m,
            restore_id@,
            RestoreRowModel {
                backup_id: backup_id@,
                source_table: source_table@,
                target_table: target_table@,
                tablet,
                gsi_defs: gsi_defs.deep_view(),
                pitr: pitr.deep_view(),
                status: RestoreStatusModel::Seeding,
            },
            replicas.deep_view(),
        ),
        MetaCommand::CompleteRestore { restore_id } => restores::complete_restore(m, restore_id@),
        MetaCommand::FailRestore { restore_id, reason } => {
            restores::fail_restore(m, restore_id@, reason@)
        },
    }
}

/// Whether the numbers that a command counts up stay within 64 bits, and the split lineage that
/// it follows has an end.
pub open spec fn can_apply(m: MetadataModel, c: MetaCommand) -> bool {
    match c {
        MetaCommand::CreateTablet { tablet, table, .. } => {
            tablet_map::create_tablet_refusal(m, tablet, table.deep_view()) is None
                ==> tablet.0 < u64::MAX
        },
        MetaCommand::CasTabletReplicas { tablet, expected_epoch, .. } => {
            m.tablets.contains_key(tablet) && m.tablets[tablet].epoch == expected_epoch
                ==> expected_epoch.0 < u64::MAX
        },
        MetaCommand::BeginSplitInPlace { parent, expected_epoch, split_key, children } => {
            splits::begin_split_bounded(
                m,
                parent,
                expected_epoch,
                splits::intent_of(split_key, children),
            )
        },
        MetaCommand::UpdateContinuousBackups { table, enabled, .. } => {
            pitr::generation_bounded(m, table@, enabled)
        },
        MetaCommand::CompleteBackup { backup_id } => {
            backups::complete_backup_bounded(m, backup_id@)
        },
        MetaCommand::BeginRestore { restore_id, tablet, .. } => {
            restores::begin_restore_bounded(m, restore_id@, tablet)
        },
        MetaCommand::CompleteRestore { restore_id } => {
            restores::complete_restore_bounded(m, restore_id@)
        },
        _ => true,
    }
}

/// The schema that a command would store, if it would store one that has to be well formed.
pub open spec fn stored_schema(m: MetadataModel, c: MetaCommand) -> Option<TableSchemaModel> {
    match c {
        MetaCommand::CreateTableSchema { schema, .. } => Some(schema.deep_view()),
        MetaCommand::ReplaceTableSchema { schema, .. } => Some(schema.deep_view()),
        MetaCommand::CreateTableIndex { table, index } => if m.schemas.contains_key(table@) {
            Some(with_index(m.schemas[table@], index.deep_view()))
        } else {
            None
        },
        _ => None,
    }
}

/// What the planner is asked for a command, if it is asked anything: a cutover selects the
/// children's placement among the active members, by the parent's policy.
pub open spec fn asked_placement(m: MetadataModel, c: MetaCommand) -> Option<
    (Seq<CandidateModel>, PlacementPolicyModel),
> {
    match c {
        MetaCommand::CutoverSplit { parent, .. } => if m.policies.contains_key(parent) {
            Some((candidates(m.members), m.policies[parent]))
        } else {
            None
        },
        _ => None,
    }
}

impl Metadata {
    /// Applies a command. `advice` answers what this crate does not decide
    /// ([`Self::schema_to_validate`], [`Self::placement_question`]); a command reads no more of
    /// it than it asks for.
    pub fn apply(&mut self, command: &MetaCommand, advice: &Advice) -> (out: ApplyOutcome)
        requires
            can_apply(old(self)@, *command),
        ensures
            (final(self)@, out) == step(old(self)@, *command, advice.deep_view()),
    {
        match command {
            MetaCommand::NoOp => ApplyOutcome::NoOp,
            MetaCommand::UpsertMember { node, labels, status } => {
                self.apply_upsert_member(node, labels, *status)
            },
            MetaCommand::CreateTablet { tablet, table, range, replicas } => {
                self.apply_create_tablet(*tablet, table, range, replicas)
            },
            MetaCommand::CasTabletReplicas { tablet, expected_epoch, replicas } => {
                self.apply_cas_tablet_replicas(*tablet, *expected_epoch, replicas)
            },
            MetaCommand::BeginSplitInPlace { parent, expected_epoch, split_key, children } => {
                self.apply_begin_split_in_place(*parent, *expected_epoch, split_key, children)
            },
            MetaCommand::CutoverSplit { parent, expected_epoch, cutover_wall_ms } => {
                self.apply_cutover_split(
                    *parent,
                    *expected_epoch,
                    *cutover_wall_ms,
                    &advice.selection,
                )
            },
            MetaCommand::MarkSplitPlacingDone { tablet, expected_epoch } => {
                self.apply_mark_split_placing_done(*tablet, *expected_epoch)
            },
            MetaCommand::RetargetSplitPlacing { tablet, expected_epoch, target } => {
                self.apply_retarget_split_placing(*tablet, *expected_epoch, target)
            },
            MetaCommand::SetTabletPolicy { tablet, policy } => {
                self.apply_set_tablet_policy(*tablet, policy)
            },
            MetaCommand::CreateTableSchema { table, schema } => {
                self.apply_create_table_schema(table, schema, advice.schema_valid)
            },
            MetaCommand::DropTableSchema { table } => self.apply_drop_table_schema(table),
            MetaCommand::ReplaceTableSchema { table, schema } => {
                self.apply_replace_table_schema(table, schema, advice.schema_valid)
            },
            MetaCommand::DropTableTablets { table } => self.apply_drop_table_tablets(table),
            MetaCommand::CreateTableIndex { table, index } => {
                self.apply_create_table_index(table, index, advice.schema_valid)
            },
            MetaCommand::DropTableIndex { table, index } => {
                self.apply_drop_table_index(table, index)
            },
            MetaCommand::SetIndexStatus { table, index, status } => {
                self.apply_set_index_status(table, index, *status)
            },
            MetaCommand::MarkIndexBackfilled { table, index, tablet } => {
                self.apply_mark_index_backfilled(table, index, *tablet)
            },
            MetaCommand::SetTableStream { table, spec } => self.apply_set_table_stream(table, spec),
            MetaCommand::SetTableTtl { table, spec } => self.apply_set_table_ttl(table, spec),
            MetaCommand::SetTableThroughput { table, spec } => {
                self.apply_set_table_throughput(table, spec)
            },
            MetaCommand::TagResource { table, tags } => self.apply_tag_resource(table, tags),
            MetaCommand::UntagResource { table, tag_keys } => {
                self.apply_untag_resource(table, tag_keys)
            },
            MetaCommand::UpdateContinuousBackups { table, enabled, wall_ms } => {
                self.apply_update_continuous_backups(table, *enabled, *wall_ms)
            },
            MetaCommand::SealStreamShard {
                table,
                label,
                tablet,
                epoch,
                view_type,
                hlc_range,
                count,
                seal_wall_ms,
                replicas,
                object_id,
            } => self.apply_seal_stream_shard(
                *tablet,
                *epoch,
                StreamShardRow {
                    table: table.dup(),
                    label: label.dup(),
                    view_type: *view_type,
                    hlc_range: *hlc_range,
                    count: *count,
                    seal_wall_ms: *seal_wall_ms,
                    replicas: replicas.dup(),
                    object_id: object_id.dup(),
                    expired: false,
                },
            ),
            MetaCommand::ExpireStreamShards { rows, remove } => {
                self.apply_expire_stream_shards(rows, *remove)
            },
            MetaCommand::SealPitrSegment {
                table,
                generation,
                tablet,
                epoch,
                hlc_range,
                count,
                seal_wall_ms,
                replicas,
                object_id,
            } => self.apply_seal_pitr_segment(
                *tablet,
                *epoch,
                PitrSegmentRow {
                    table: table.dup(),
                    generation: *generation,
                    hlc_range: *hlc_range,
                    count: *count,
                    seal_wall_ms: *seal_wall_ms,
                    replicas: replicas.dup(),
                    object_id: object_id.dup(),
                    expired: false,
                },
            ),
            MetaCommand::ExpirePitrSegments { rows, remove } => {
                self.apply_expire_pitr_segments(rows, *remove)
            },
            MetaCommand::RegisterCpAddr { id, addr, tablet } => {
                self.apply_register_cp_addr(id, addr, tablet)
            },
            MetaCommand::RegisterNodeAddrs { node, addrs } => {
                self.apply_register_node_addrs(node, addrs)
            },
            MetaCommand::RemoveMember { node } => self.apply_remove_member(node),
            MetaCommand::RegisterNode { node, addrs, labels } => {
                self.apply_register_node(node, addrs, labels)
            },
            MetaCommand::BeginBackup {
                backup_id,
                table,
                created_wall_ms,
                backup_name,
                pitr_base,
            } => self.apply_begin_backup(
                backup_id,
                table,
                *created_wall_ms,
                backup_name,
                *pitr_base,
            ),
            MetaCommand::RecordBackupTabletComplete { backup_id, tablet, cut_version, bytes } => {
                self.apply_record_backup_tablet_complete(backup_id, *tablet, *cut_version, *bytes)
            },
            MetaCommand::CompleteBackup { backup_id } => self.apply_complete_backup(backup_id),
            MetaCommand::FailBackup { backup_id, reason } => {
                self.apply_fail_backup(backup_id, reason)
            },
            MetaCommand::DeleteBackup { backup_id } => self.apply_delete_backup(backup_id),
            MetaCommand::MarkBackupDeleted { backup_id } => {
                self.apply_mark_backup_deleted(backup_id)
            },
            MetaCommand::BeginRestore {
                restore_id,
                backup_id,
                source_table,
                target_table,
                tablet,
                replicas,
                gsi_defs,
                pitr,
            } => self.apply_begin_restore(
                restore_id,
                RestoreRow {
                    backup_id: backup_id.dup(),
                    source_table: source_table.dup(),
                    target_table: target_table.dup(),
                    tablet: *tablet,
                    gsi_defs: gsi_defs.dup(),
                    pitr: pitr.dup(),
                    status: RestoreStatus::Seeding,
                },
                replicas,
            ),
            MetaCommand::CompleteRestore { restore_id } => self.apply_complete_restore(restore_id),
            MetaCommand::FailRestore { restore_id, reason } => {
                self.apply_fail_restore(restore_id, reason)
            },
        }
    }

    /// The schema that `command` would store and whose well-formedness
    /// [`Advice::schema_valid`] answers for.
    #[must_use]
    pub fn schema_to_validate(&self, command: &MetaCommand) -> (r: Option<TableSchema>)
        ensures
            r.deep_view() == stored_schema(self@, *command),
    {
        match command {
            MetaCommand::CreateTableSchema { schema, .. } => Some(schema.dup()),
            MetaCommand::ReplaceTableSchema { schema, .. } => Some(schema.dup()),
            MetaCommand::CreateTableIndex { table, index } => match self.schemas.get(table) {
                None => None,
                Some(schema) => {
                    let mut candidate: TableSchema = schema.dup();
                    candidate.upsert_index(index.dup());
                    Some(candidate)
                },
            },
            _ => None,
        }
    }

    /// What the planner has to be asked for `command`: the candidates and the policy for which
    /// [`Advice::selection`] is the replica set that it selects.
    #[must_use]
    pub fn placement_question(&self, command: &MetaCommand) -> (r: Option<
        (Vec<Candidate>, PlacementPolicy),
    >)
        ensures
            r.deep_view() == asked_placement(self@, *command),
    {
        match command {
            MetaCommand::CutoverSplit { parent, .. } => match self.policies.get(parent) {
                None => None,
                Some(policy) => Some((active_candidates(&self.members), policy.dup())),
            },
            _ => None,
        }
    }
}

} // verus!
