//! Why commands are refused: each refusal names the first thing that stands in the way.
use crate::advice::AdviceModel;
use crate::apply::step;
use crate::backup_laws::comes_from_pinned;
use crate::command::{ApplyOutcome, MetaCommand};
use crate::history_laws::expected;
use crate::ids::TabletId;
use crate::meta::{finite, MetadataModel};
use crate::rows::{BackupStatusModel, NodeStatus, RestoreStatusModel};
use crate::segment_laws::{recovery_licensed, stream_licensed};
use crate::splitting_laws::{divides, never_used};
use crate::syskv::RESERVED_NAMESPACE;
use crate::table_laws::names_index;
use crate::tablet::{bytes_deep_view, TabletState};
use crate::tablet_laws::is_tablet_of;
use vstd::prelude::*;

verus! {

/// A command on a table that is not there is refused for that, whatever else it asks.
pub proof fn a_missing_table_is_named(m: MetadataModel, c: MetaCommand, a: AdviceModel)
    ensures
        ({
            let outcome = step(m, c, a).1;
            let missing = ApplyOutcome::Rejected("no such table schema");
            &&& c is CreateTableIndex && !m.schemas.contains_key(c->CreateTableIndex_table@)
                ==> outcome == missing
            &&& c is SetIndexStatus && !m.schemas.contains_key(c->SetIndexStatus_table@) ==> outcome
                == missing
            &&& c is MarkIndexBackfilled && !m.schemas.contains_key(c->MarkIndexBackfilled_table@)
                ==> outcome == missing
            &&& c is SetTableStream && !m.schemas.contains_key(c->SetTableStream_table@) ==> outcome
                == missing
            &&& c is SetTableTtl && !m.schemas.contains_key(c->SetTableTtl_table@) ==> outcome
                == missing
            &&& c is SetTableThroughput && !m.schemas.contains_key(c->SetTableThroughput_table@)
                ==> outcome == missing
            &&& c is TagResource && !m.schemas.contains_key(c->TagResource_table@) ==> outcome
                == missing
            &&& c is UntagResource && !m.schemas.contains_key(c->UntagResource_table@) ==> outcome
                == missing
            &&& c is UpdateContinuousBackups && !m.schemas.contains_key(
                c->UpdateContinuousBackups_table@,
            ) ==> outcome == missing
            &&& c is BeginBackup && !m.backups.contains_key(c->BeginBackup_backup_id@)
                && !m.schemas.contains_key(c->BeginBackup_table@) ==> outcome == missing
            &&& c is ReplaceTableSchema && !m.schemas.contains_key(c->ReplaceTableSchema_table@)
                ==> outcome == ApplyOutcome::Rejected("no schema to replace for table")
        }),
{
}

/// A schema is refused for its name first, then because the name is taken, then for its form.
pub proof fn a_refused_schema_is_told_why(m: MetadataModel, c: MetaCommand, a: AdviceModel)
    ensures
        c is CreateTableSchema ==> {
            let outcome = step(m, c, a).1;
            let table = c->CreateTableSchema_table@;
            let system = RESERVED_NAMESPACE@.is_prefix_of(table);
            &&& system ==> outcome == ApplyOutcome::Rejected(
                "table name collides with the reserved system namespace",
            )
            &&& !system && table.contains('$') ==> outcome == ApplyOutcome::Rejected(
                "table name may not contain the reserved `$` separator",
            )
            &&& !system && !table.contains('$') && m.schemas.contains_key(table) ==> outcome
                == ApplyOutcome::Rejected("table schema already exists")
            &&& !system && !table.contains('$') && !m.schemas.contains_key(table)
                && !a.schema_valid ==> outcome == ApplyOutcome::Rejected("malformed table schema")
        },
        c is ReplaceTableSchema && m.schemas.contains_key(c->ReplaceTableSchema_table@)
            && !a.schema_valid ==> step(m, c, a).1 == ApplyOutcome::Rejected(
            "malformed table schema",
        ),
        c is CreateTableIndex && m.schemas.contains_key(c->CreateTableIndex_table@)
            && !a.schema_valid ==> step(m, c, a).1 == ApplyOutcome::Rejected(
            "malformed table index",
        ),
        c is SetTableStream && m.schemas.contains_key(c->SetTableStream_table@)
            && c->SetTableStream_spec is Some && m.schemas[c->SetTableStream_table@].stream is Some
            ==> step(m, c, a).1 == ApplyOutcome::Rejected(
            "table stream already enabled (disable before re-enabling to mint a new label)",
        ),
{
}

/// An index that the table does not have is named, and so is a tablet that is not the table's.
pub proof fn a_missing_index_is_named(m: MetadataModel, c: MetaCommand, a: AdviceModel)
    ensures
        c is SetIndexStatus && m.schemas.contains_key(c->SetIndexStatus_table@) && !names_index(
            m.schemas[c->SetIndexStatus_table@].indexes,
            c->SetIndexStatus_index@,
        ) ==> step(m, c, a).1 == ApplyOutcome::Rejected("no such table index"),
        c is MarkIndexBackfilled && m.schemas.contains_key(c->MarkIndexBackfilled_table@) ==> {
            let there = names_index(
                m.schemas[c->MarkIndexBackfilled_table@].indexes,
                c->MarkIndexBackfilled_index@,
            );
            let mine = is_tablet_of(
                m,
                c->MarkIndexBackfilled_table@,
                c->MarkIndexBackfilled_tablet,
            );
            &&& !there ==> step(m, c, a).1 == ApplyOutcome::Rejected("no such table index")
            &&& there && !mine ==> step(m, c, a).1 == ApplyOutcome::Rejected(
                "tablet is not scoped to this table",
            )
        },
{
    if c is SetIndexStatus && m.schemas.contains_key(c->SetIndexStatus_table@) {
        let all = m.schemas[c->SetIndexStatus_table@].indexes;
        let name = c->SetIndexStatus_index@;
        assert(crate::schema::has_index(all, name) == names_index(all, name));
    }
    if c is MarkIndexBackfilled && m.schemas.contains_key(c->MarkIndexBackfilled_table@) {
        let all = m.schemas[c->MarkIndexBackfilled_table@].indexes;
        let name = c->MarkIndexBackfilled_index@;
        assert(crate::schema::has_index(all, name) == names_index(all, name));
    }
}

/// A command on a tablet that is not there, or that is at another epoch, is refused for that before
/// anything else of the tablet is looked at.
pub proof fn a_stale_command_is_told_why(m: MetadataModel, c: MetaCommand, a: AdviceModel)
    requires
        expected(c) is Some,
        c !is BeginSplitInPlace,
    ensures
        ({
            let (t, epoch) = expected(c)->0;
            let outcome = step(m, c, a).1;
            &&& !m.tablets.contains_key(t) ==> outcome == ApplyOutcome::Rejected("no such tablet")
            &&& m.tablets.contains_key(t) && m.tablets[t].epoch != epoch ==> outcome
                == ApplyOutcome::Rejected("epoch mismatch")
        }),
{
}

/// A command names the tablet and the epoch that it is judged by.
pub proof fn what_a_command_is_judged_by(c: MetaCommand)
    ensures
        c is CasTabletReplicas ==> expected(c) == Some(
            (c->CasTabletReplicas_tablet, c->CasTabletReplicas_expected_epoch),
        ),
        c is BeginSplitInPlace ==> expected(c) == Some(
            (c->BeginSplitInPlace_parent, c->BeginSplitInPlace_expected_epoch),
        ),
        c is CutoverSplit ==> expected(c) == Some(
            (c->CutoverSplit_parent, c->CutoverSplit_expected_epoch),
        ),
        c is MarkSplitPlacingDone ==> expected(c) == Some(
            (c->MarkSplitPlacingDone_tablet, c->MarkSplitPlacingDone_expected_epoch),
        ),
        c is RetargetSplitPlacing ==> expected(c) == Some(
            (c->RetargetSplitPlacing_tablet, c->RetargetSplitPlacing_expected_epoch),
        ),
{
}

/// A tablet that may not be created is refused because it exists, else because its table has one
/// already, whatever its id, else because its id was handed out before.
pub proof fn a_refused_tablet_is_told_why(m: MetadataModel, c: MetaCommand, a: AdviceModel)
    requires
        c is CreateTablet,
    ensures
        ({
            let outcome = step(m, c, a).1;
            let id = c->CreateTablet_tablet;
            let table = c->CreateTablet_table.deep_view();
            let taken = table is Some && exists|t: TabletId| #[trigger]
                m.tablets.contains_key(t) && m.tablets[t].table == table;
            &&& m.tablets.contains_key(id) ==> outcome == ApplyOutcome::Rejected(
                "tablet already exists",
            )
            &&& !m.tablets.contains_key(id) && taken ==> outcome == ApplyOutcome::Rejected(
                "table already has a tablet",
            )
            &&& !m.tablets.contains_key(id) && !taken && !never_used(m, id) ==> outcome
                == ApplyOutcome::Rejected("tablet id below the monotonic allocator")
        }),
{
    let table = c->CreateTablet_table.deep_view();
    if table is Some {
        crate::tablet_laws::a_table_has_the_tablets_scoped_to_it(m, table->0);
    }
}

/// A split that may not begin is refused for its children first, then for its parent, then for its
/// key.
pub proof fn a_refused_split_is_told_why(m: MetadataModel, c: MetaCommand, a: AdviceModel)
    requires
        c is BeginSplitInPlace,
    ensures
        ({
            let outcome = step(m, c, a).1;
            let p = c->BeginSplitInPlace_parent;
            let key = c->BeginSplitInPlace_split_key@;
            let left = c->BeginSplitInPlace_children[0].0;
            let right = c->BeginSplitInPlace_children[1].0;
            let fresh = left != right && never_used(m, left) && never_used(m, right);
            let current = m.tablets.contains_key(p) && m.tablets[p].epoch
                == c->BeginSplitInPlace_expected_epoch;
            let serving = current && m.tablets[p].state == TabletState::Active;
            let aligned = (m.tablets[p].table is Some && m.schemas.contains_key(
                m.tablets[p].table->0,
            ) && m.schemas[m.tablets[p].table->0].stream is Some) ==> key.len() == 8;
            &&& left == right ==> outcome == ApplyOutcome::Rejected("child ids must be distinct")
            &&& left != right && m.tablets.contains_key(left) ==> outcome == ApplyOutcome::Rejected(
                "child tablet id already exists",
            )
            &&& left != right && !m.tablets.contains_key(left) && !never_used(m, left) ==> outcome
                == ApplyOutcome::Rejected("child tablet id below the monotonic allocator")
            &&& left != right && never_used(m, left) && m.tablets.contains_key(right) ==> outcome
                == ApplyOutcome::Rejected("child tablet id already exists")
            &&& left != right && never_used(m, left) && !m.tablets.contains_key(right)
                && !never_used(m, right) ==> outcome == ApplyOutcome::Rejected(
                "child tablet id below the monotonic allocator",
            )
            &&& fresh && !m.tablets.contains_key(p) ==> outcome == ApplyOutcome::Rejected(
                "no such tablet",
            )
            &&& fresh && m.tablets.contains_key(p) && !current ==> outcome
                == ApplyOutcome::Rejected("epoch mismatch")
            &&& fresh && current && !serving ==> outcome == ApplyOutcome::Rejected(
                "tablet is not Active",
            )
            &&& fresh && serving && !aligned ==> outcome == ApplyOutcome::Rejected(
                "split key not token-aligned for a streamed table",
            )
            &&& fresh && serving && aligned && !divides(key, m.tablets[p].range) ==> outcome
                == ApplyOutcome::Rejected("split key not strictly inside range")
        }),
{
    bytes_deep_view(c->BeginSplitInPlace_split_key);
}

/// A cutover of a tablet at the expected epoch is refused because it is not splitting, else because
/// it records no split, else for the key; an obligation that is not there is named.
pub proof fn a_refused_cutover_is_told_why(m: MetadataModel, c: MetaCommand, a: AdviceModel)
    requires
        expected(c) is Some,
        m.tablets.contains_key((expected(c)->0).0),
        m.tablets[(expected(c)->0).0].epoch == (expected(c)->0).1,
    ensures
        ({
            let outcome = step(m, c, a).1;
            let t = m.tablets[(expected(c)->0).0];
            &&& c is CutoverSplit && t.state != TabletState::Splitting ==> outcome
                == ApplyOutcome::Rejected("tablet is not Splitting")
            &&& c is CutoverSplit && t.state == TabletState::Splitting && t.inplace_split is None
                ==> outcome == ApplyOutcome::Rejected(
                "splitting parent has no in-place split intent",
            )
            &&& c is CutoverSplit && t.state == TabletState::Splitting && t.inplace_split is Some
                && !divides(t.inplace_split->0.split_key, t.range) ==> outcome
                == ApplyOutcome::Rejected("split key not strictly inside range")
            &&& (c is MarkSplitPlacingDone || c is RetargetSplitPlacing)
                && !m.split_placing.contains_key((expected(c)->0).0) ==> outcome
                == ApplyOutcome::Rejected("no split_placing entry for this tablet")
        }),
{
}

/// A policy or an address for a tablet that is not there is refused for that.
pub proof fn a_missing_tablet_is_named(m: MetadataModel, c: MetaCommand, a: AdviceModel)
    ensures
        c is SetTabletPolicy && !m.tablets.contains_key(c->SetTabletPolicy_tablet) ==> step(
            m,
            c,
            a,
        ).1 == ApplyOutcome::Rejected("no such tablet"),
        c is RegisterCpAddr && c->RegisterCpAddr_tablet is Some && !m.tablets.contains_key(
            c->RegisterCpAddr_tablet->0,
        ) ==> step(m, c, a).1 == ApplyOutcome::Rejected("no such tablet for cp addr"),
{
}

/// A member that may not go is told whether it still serves or is still named; an unknown node
/// whether it has to register, and a taken id that it is taken.
pub proof fn a_refused_member_is_told_why(m: MetadataModel, c: MetaCommand, a: AdviceModel)
    requires
        finite(m),
    ensures
        c is RemoveMember && m.members.contains_key(c->RemoveMember_node.0@) ==> {
            let node = c->RemoveMember_node.0@;
            let serves = m.members[node].status == NodeStatus::Active || m.members[node].status
                == NodeStatus::Joining;
            let named = exists|t: TabletId| #[trigger]
                m.tablets.contains_key(t) && m.tablets[t].replicas.contains(node);
            &&& serves ==> step(m, c, a).1 == ApplyOutcome::Rejected(
                "not drained: member is Active or Joining",
            )
            &&& !serves && named ==> step(m, c, a).1 == ApplyOutcome::Rejected(
                "still referenced by a tablet's replica set",
            )
        },
        c is RegisterNodeAddrs && !m.members.contains_key(c->RegisterNodeAddrs_node.0@)
            && !m.node_addrs.contains_key(c->RegisterNodeAddrs_node.0@) ==> step(m, c, a).1
            == ApplyOutcome::Rejected(
            "node id not yet a registered member — register it via MetaCommand::RegisterNode first",
        ),
        c is RegisterNode && m.node_addrs.contains_key(c->RegisterNode_node.0@)
            && m.node_addrs[c->RegisterNode_node.0@] != c->RegisterNode_addrs.deep_view() ==> step(
            m,
            c,
            a,
        ).1 == ApplyOutcome::Rejected("node id already claimed by a different registration"),
{
    reveal(finite);
    if c is RemoveMember {
        crate::member_laws::referencing_counts_the_naming_tablets(m, c->RemoveMember_node.0@);
    }
}

/// A new segment is refused for what licenses it first, then for a gap before it.
pub proof fn a_refused_segment_is_told_why(m: MetadataModel, c: MetaCommand, a: AdviceModel)
    ensures
        c is SealStreamShard && !m.stream_shards.contains_key(
            (c->SealStreamShard_tablet, c->SealStreamShard_epoch),
        ) ==> {
            let epoch = c->SealStreamShard_epoch;
            let licensed = stream_licensed(
                m,
                c->SealStreamShard_table@,
                c->SealStreamShard_label@,
            );
            &&& !licensed ==> step(m, c, a).1 == ApplyOutcome::Rejected(
                "stream label has no current schema entry and no existing catalog rows to extend",
            )
            &&& licensed && epoch > 0 && !m.stream_shards.contains_key(
                (c->SealStreamShard_tablet, (epoch - 1) as u64),
            ) ==> step(m, c, a).1 == ApplyOutcome::Rejected(
                "epoch chain gap: no prior epoch row for this tablet",
            )
        },
        c is SealPitrSegment && !m.pitr_segments.contains_key(
            (c->SealPitrSegment_tablet, c->SealPitrSegment_epoch),
        ) ==> {
            let epoch = c->SealPitrSegment_epoch;
            let licensed = recovery_licensed(
                m,
                c->SealPitrSegment_table@,
                c->SealPitrSegment_generation,
            );
            &&& !licensed ==> step(m, c, a).1 == ApplyOutcome::Rejected(
                "PITR generation has no current schema entry and no existing catalog rows to extend",
            )
            &&& licensed && epoch > 0 && !m.pitr_segments.contains_key(
                (c->SealPitrSegment_tablet, (epoch - 1) as u64),
            ) ==> step(m, c, a).1 == ApplyOutcome::Rejected(
                "epoch chain gap: no prior epoch row for this tablet",
            )
        },
{
    if c is SealStreamShard {
        crate::segment_laws::stream_license(
            m,
            c->SealStreamShard_table@,
            c->SealStreamShard_label@,
        );
    }
    if c is SealPitrSegment {
        crate::segment_laws::recovery_license(
            m,
            c->SealPitrSegment_table@,
            c->SealPitrSegment_generation,
        );
    }
}

/// A command on a backup is refused because there is none, else for its status, else for what is
/// missing or differs.
pub proof fn a_refused_backup_is_told_why(m: MetadataModel, c: MetaCommand, a: AdviceModel)
    ensures
        c is BeginBackup && m.backups.contains_key(c->BeginBackup_backup_id@) ==> step(m, c, a).1
            == ApplyOutcome::Rejected("backup id already exists"),
        c is RecordBackupTabletComplete ==> {
            let outcome = step(m, c, a).1;
            let id = c->RecordBackupTabletComplete_backup_id@;
            let t = c->RecordBackupTabletComplete_tablet;
            let creating = m.backups.contains_key(id) && m.backups[id].status
                == BackupStatusModel::Creating;
            let due = comes_from_pinned(m, m.backups[id].manifest.pinned_tablets, t);
            let known = m.backup_tablet_progress[(id, t)];
            &&& !m.backups.contains_key(id) ==> outcome == ApplyOutcome::Rejected("no such backup")
            &&& m.backups.contains_key(id) && !creating ==> outcome == ApplyOutcome::Rejected(
                "backup is not Creating",
            )
            &&& creating && !due ==> outcome == ApplyOutcome::Rejected(
                "tablet is not pinned in this backup",
            )
            &&& creating && due && m.backup_tablet_progress.contains_key((id, t)) && (
            known.cut_version != c->RecordBackupTabletComplete_cut_version || known.bytes
                != c->RecordBackupTabletComplete_bytes) ==> outcome == ApplyOutcome::Rejected(
                "tablet already reported a different completion",
            )
        },
        c is CompleteBackup ==> {
            let outcome = step(m, c, a).1;
            let id = c->CompleteBackup_backup_id@;
            let creating = m.backups.contains_key(id) && m.backups[id].status
                == BackupStatusModel::Creating;
            &&& !m.backups.contains_key(id) ==> outcome == ApplyOutcome::Rejected("no such backup")
            &&& m.backups.contains_key(id) && !creating ==> outcome == ApplyOutcome::Rejected(
                "backup is not Creating",
            )
            &&& creating && outcome != ApplyOutcome::Applied ==> outcome == ApplyOutcome::Rejected(
                "not every pinned tablet has reported completion",
            )
        },
        c is FailBackup && !m.backups.contains_key(c->FailBackup_backup_id@) ==> step(m, c, a).1
            == ApplyOutcome::Rejected("no such backup"),
        c is FailBackup && m.backups.contains_key(c->FailBackup_backup_id@) && (
        m.backups[c->FailBackup_backup_id@].status == BackupStatusModel::Available
            || m.backups[c->FailBackup_backup_id@].status == BackupStatusModel::Expired) ==> step(
            m,
            c,
            a,
        ).1 == ApplyOutcome::Rejected("backup is not in a failable state"),
        c is MarkBackupDeleted && !m.backups.contains_key(c->MarkBackupDeleted_backup_id@) ==> step(
            m,
            c,
            a,
        ).1 == ApplyOutcome::Rejected("no such backup"),
        c is MarkBackupDeleted && m.backups.contains_key(c->MarkBackupDeleted_backup_id@)
            && m.backups[c->MarkBackupDeleted_backup_id@].status == BackupStatusModel::Creating
            ==> step(m, c, a).1 == ApplyOutcome::Rejected("backup is not in a deletable state"),
{
    if c is RecordBackupTabletComplete && m.backups.contains_key(
        c->RecordBackupTabletComplete_backup_id@,
    ) {
        crate::backup_laws::coming_from_pinned(
            m,
            m.backups[c->RecordBackupTabletComplete_backup_id@].manifest.pinned_tablets,
            c->RecordBackupTabletComplete_tablet,
        );
    }
}

/// A restore that may not begin is refused for its id first, then for its tablet; one that may not
/// complete or fail because there is none, else for its status, else for its tablet.
pub proof fn a_refused_restore_is_told_why(m: MetadataModel, c: MetaCommand, a: AdviceModel)
    ensures
        c is BeginRestore ==> {
            let outcome = step(m, c, a).1;
            let fresh = !m.restores.contains_key(c->BeginRestore_restore_id@);
            let t = c->BeginRestore_tablet;
            &&& !fresh ==> outcome == ApplyOutcome::Rejected("restore id already exists")
            &&& fresh && m.tablets.contains_key(t) ==> outcome == ApplyOutcome::Rejected(
                "tablet already exists",
            )
            &&& fresh && !m.tablets.contains_key(t) && !never_used(m, t) ==> outcome
                == ApplyOutcome::Rejected("tablet id below the monotonic allocator")
        },
        c is CompleteRestore ==> {
            let outcome = step(m, c, a).1;
            let id = c->CompleteRestore_restore_id@;
            let row = m.restores[id];
            let seeding = m.restores.contains_key(id) && row.status == RestoreStatusModel::Seeding;
            &&& !m.restores.contains_key(id) ==> outcome == ApplyOutcome::Rejected(
                "no such restore",
            )
            &&& m.restores.contains_key(id) && !seeding ==> outcome == ApplyOutcome::Rejected(
                "restore is not Seeding",
            )
            &&& seeding && !m.tablets.contains_key(row.tablet) ==> outcome
                == ApplyOutcome::Rejected("restore's tablet no longer exists")
            &&& seeding && m.tablets.contains_key(row.tablet) && m.tablets[row.tablet].state
                != TabletState::Building ==> outcome == ApplyOutcome::Rejected(
                "restore's tablet is not Building",
            )
        },
        c is FailRestore && !m.restores.contains_key(c->FailRestore_restore_id@) ==> step(m, c, a).1
            == ApplyOutcome::Rejected("no such restore"),
        c is FailRestore && m.restores.contains_key(c->FailRestore_restore_id@)
            && m.restores[c->FailRestore_restore_id@].status == RestoreStatusModel::Done ==> step(
            m,
            c,
            a,
        ).1 == ApplyOutcome::Rejected("restore already completed"),
{
}

} // verus!
