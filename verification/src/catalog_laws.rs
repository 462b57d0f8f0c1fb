//! What the catalogs keep in step with each other, and what the queries promise of the commands.
use crate::advice::AdviceModel;
use crate::apply::{can_apply, step};
use crate::backups::{manifest_progress, ready_to_complete, sum_bytes};
use crate::command::{ApplyOutcome, MetaCommand};
use crate::ids::TabletId;
use crate::membership::{is_claimed, is_orphan};
use crate::meta::{empty_metadata, MetadataModel};
use crate::pitr::{
    base_times, is_base_of, last_seal_times, restore_window, seal_times, segments_for_generation,
    taken_under, window_generation,
};
use crate::rows::BackupStatusModel;
use crate::split_laws::{ids_unique, promised};
use crate::tablet_map::{backfill_of, below_floor, dead_members, tablets_of};
use vstd::prelude::*;

verus! {

/// Every record that a tablet was captured, and every tag of a base snapshot, is one of a backup
/// that there is.
pub open spec fn records_have_their_backup(m: MetadataModel) -> bool {
    &&& forall|k: (Seq<char>, TabletId)| #[trigger]
        m.backup_tablet_progress.contains_key(k) ==> m.backups.contains_key(k.0)
    &&& forall|id: Seq<char>| #[trigger]
        m.pitr_base_backups.contains(id) ==> m.backups.contains_key(id)
}

/// A fresh cluster has no record without its backup.
pub proof fn records_begin_with_their_backup()
    ensures
        records_have_their_backup(empty_metadata()),
{
}

/// A record never outlives its backup.
pub proof fn records_stay_with_their_backup(m: MetadataModel, c: MetaCommand, a: AdviceModel)
    requires
        records_have_their_backup(m),
    ensures
        records_have_their_backup(step(m, c, a).0),
{
    if !(c is BeginBackup || c is RecordBackupTabletComplete || c is CompleteBackup
        || c is FailBackup || c is DeleteBackup || c is MarkBackupDeleted) {
        backups_frame(m, c, a);
        backup_progress_frame(m, c, a);
        base_tags_frame(m, c, a);
    }
}

proof fn backups_frame(m: MetadataModel, c: MetaCommand, a: AdviceModel)
    requires
        c !is BeginBackup,
        c !is RecordBackupTabletComplete,
        c !is CompleteBackup,
        c !is FailBackup,
        c !is DeleteBackup,
        c !is MarkBackupDeleted,
    ensures
        step(m, c, a).0.backups == m.backups,
{
}

proof fn backup_progress_frame(m: MetadataModel, c: MetaCommand, a: AdviceModel)
    requires
        c !is BeginBackup,
        c !is RecordBackupTabletComplete,
        c !is CompleteBackup,
        c !is FailBackup,
        c !is DeleteBackup,
        c !is MarkBackupDeleted,
    ensures
        step(m, c, a).0.backup_tablet_progress == m.backup_tablet_progress,
{
}

proof fn base_tags_frame(m: MetadataModel, c: MetaCommand, a: AdviceModel)
    requires
        c !is BeginBackup,
        c !is RecordBackupTabletComplete,
        c !is CompleteBackup,
        c !is FailBackup,
        c !is DeleteBackup,
        c !is MarkBackupDeleted,
    ensures
        step(m, c, a).0.pitr_base_backups == m.pitr_base_backups,
{
}

/// Every policy is one of a tablet that there is.
pub open spec fn policies_have_their_tablet(m: MetadataModel) -> bool {
    m.policies.dom().subset_of(m.tablets.dom())
}

/// A fresh cluster has no policy without its tablet.
pub proof fn policies_begin_with_their_tablet()
    ensures
        policies_have_their_tablet(empty_metadata()),
{
}

/// A policy never outlives its tablet.
pub proof fn policies_stay_with_their_tablet(m: MetadataModel, c: MetaCommand, a: AdviceModel)
    requires
        policies_have_their_tablet(m),
    ensures
        policies_have_their_tablet(step(m, c, a).0),
{
}

/// Whether a tablet is in the map, or left it when its children took over.
pub open spec fn live_or_split(m: MetadataModel, t: TabletId) -> bool {
    m.tablets.contains_key(t) || exists|c: TabletId| #[trigger]
        m.split_lineage.contains_key(c) && m.split_lineage[c].parent == t
}

/// Nothing is left of a dropped tablet: every backfill record, every placement obligation and every
/// served tablet is one of the map, or was split.
pub open spec fn nothing_is_left_over(m: MetadataModel) -> bool {
    &&& forall|k: (TabletId, Seq<char>)| #[trigger]
        m.index_backfill.contains_key(k) ==> live_or_split(m, k.0)
    &&& forall|t: TabletId| #[trigger] m.split_placing.contains_key(t) ==> live_or_split(m, t)
    &&& forall|n: Seq<char>| #[trigger]
        m.cp_member_tablets.contains_key(n) ==> live_or_split(m, m.cp_member_tablets[n])
}

/// A fresh cluster has nothing left over.
pub proof fn nothing_begins_left_over()
    ensures
        nothing_is_left_over(empty_metadata()),
{
}

/// No command leaves anything over of a dropped tablet.
pub proof fn nothing_stays_left_over(m: MetadataModel, c: MetaCommand, a: AdviceModel)
    requires
        ids_unique(m),
        nothing_is_left_over(m),
    ensures
        nothing_is_left_over(step(m, c, a).0),
{
    let n = step(m, c, a).0;
    assert forall|t: TabletId| #[trigger]
        live_or_split(m, t) && !dropped(m, c, t) implies live_or_split(n, t) by {
        a_tablet_leaves_by_a_split_or_a_drop(m, c, a, t);
    }
    backfills_stay(m, c, a);
    obligations_stay(m, c, a);
    served_tablets_stay(m, c, a);
}

/// The kept tablets stay what they were.
spec fn keeps(m: MetadataModel, c: MetaCommand, n: MetadataModel) -> bool {
    forall|t: TabletId| #[trigger] live_or_split(m, t) && !dropped(m, c, t) ==> live_or_split(n, t)
}

proof fn backfills_stay(m: MetadataModel, c: MetaCommand, a: AdviceModel)
    requires
        nothing_is_left_over(m),
        keeps(m, c, step(m, c, a).0),
    ensures
        forall|k: (TabletId, Seq<char>)| #[trigger]
            step(m, c, a).0.index_backfill.contains_key(k) ==> live_or_split(
                step(m, c, a).0,
                k.0,
            ),
{
    let n = step(m, c, a).0;
    assert forall|k: (TabletId, Seq<char>)| #[trigger]
        n.index_backfill.contains_key(k) implies live_or_split(n, k.0) by {
        if c is MarkIndexBackfilled {
            assert(live_or_split(m, k.0));
        } else if c is DropTableTablets {
            let ids = tablets_of(m, c->DropTableTablets_table@);
            assert(m.index_backfill.contains_key(k));
            assert(dropped(m, c, k.0) ==> backfill_of(m, ids).contains(k));
        } else {
            assert(m.index_backfill.contains_key(k));
        }
        assert(live_or_split(m, k.0) && !dropped(m, c, k.0));
    }
}

proof fn obligations_stay(m: MetadataModel, c: MetaCommand, a: AdviceModel)
    requires
        ids_unique(m),
        nothing_is_left_over(m),
        keeps(m, c, step(m, c, a).0),
    ensures
        forall|t: TabletId| #[trigger]
            step(m, c, a).0.split_placing.contains_key(t) ==> live_or_split(step(m, c, a).0, t),
{
    let n = step(m, c, a).0;
    if !(c is CutoverSplit || c is DropTableTablets) {
        obligations_frame(m, c, a);
    }
    assert forall|t: TabletId| #[trigger] n.split_placing.contains_key(t) implies live_or_split(
        n,
        t,
    ) by {
        if c is CutoverSplit {
            a_new_obligation_is_a_childs(m, c, a, t);
        }
        assert(m.split_placing.contains_key(t) ==> live_or_split(m, t));
    }
}

proof fn a_new_obligation_is_a_childs(
    m: MetadataModel,
    c: MetaCommand,
    a: AdviceModel,
    t: TabletId,
)
    requires
        c is CutoverSplit,
        ids_unique(m),
        step(m, c, a).0.split_placing.contains_key(t),
    ensures
        m.split_placing.contains_key(t) || step(m, c, a).0.tablets.contains_key(t),
{
    if step(m, c, a).1 == ApplyOutcome::Applied {
        let p = c->CutoverSplit_parent;
        let i = m.tablets[p].inplace_split->0;
        assert(promised(m, p, i.left.id) && promised(m, p, i.right.id));
    }
}

proof fn obligations_frame(m: MetadataModel, c: MetaCommand, a: AdviceModel)
    requires
        c !is CutoverSplit,
        c !is DropTableTablets,
    ensures
        step(m, c, a).0.split_placing.dom() == m.split_placing.dom(),
{
    let n = step(m, c, a).0;
    if c is MarkSplitPlacingDone || c is RetargetSplitPlacing {
        assert(n.split_placing.dom() =~= m.split_placing.dom());
    }
}

proof fn served_tablets_stay(m: MetadataModel, c: MetaCommand, a: AdviceModel)
    requires
        nothing_is_left_over(m),
        keeps(m, c, step(m, c, a).0),
    ensures
        forall|x: Seq<char>| #[trigger]
            step(m, c, a).0.cp_member_tablets.contains_key(x) ==> live_or_split(
                step(m, c, a).0,
                step(m, c, a).0.cp_member_tablets[x],
            ),
{
    let n = step(m, c, a).0;
    if !(c is RegisterCpAddr || c is RemoveMember || c is DropTableTablets) {
        served_tablets_frame(m, c, a);
    }
    assert forall|x: Seq<char>| #[trigger]
        n.cp_member_tablets.contains_key(x) implies live_or_split(n, n.cp_member_tablets[x]) by {
        if c is DropTableTablets {
            if step(m, c, a).1 == ApplyOutcome::Applied {
                assert(!dead_members(m.cp_member_tablets, n.tablets).contains(x));
            }
        } else if c is RegisterCpAddr {
            assert(m.cp_member_tablets.contains_key(x) ==> live_or_split(
                m,
                m.cp_member_tablets[x],
            ));
        } else {
            assert(m.cp_member_tablets.contains_key(x));
            assert(live_or_split(m, n.cp_member_tablets[x]));
        }
    }
}

proof fn served_tablets_frame(m: MetadataModel, c: MetaCommand, a: AdviceModel)
    requires
        c !is RegisterCpAddr,
        c !is RemoveMember,
        c !is DropTableTablets,
    ensures
        step(m, c, a).0.cp_member_tablets == m.cp_member_tablets,
{
}

/// Whether a command drops a tablet.
spec fn dropped(m: MetadataModel, c: MetaCommand, t: TabletId) -> bool {
    c matches MetaCommand::DropTableTablets { table } && tablets_of(m, table@).contains(t)
}

/// A tablet leaves the map when it is dropped or its children take over, and in no other way.
proof fn a_tablet_leaves_by_a_split_or_a_drop(
    m: MetadataModel,
    c: MetaCommand,
    a: AdviceModel,
    t: TabletId,
)
    requires
        ids_unique(m),
        live_or_split(m, t),
        !dropped(m, c, t),
    ensures
        live_or_split(step(m, c, a).0, t),
{
    let n = step(m, c, a).0;
    if c is CutoverSplit {
        if step(m, c, a).1 == ApplyOutcome::Applied {
            let p = c->CutoverSplit_parent;
            let i = m.tablets[p].inplace_split->0;
            assert(promised(m, p, i.left.id) && promised(m, p, i.right.id));
            assert(n.split_lineage.contains_key(i.left.id) && n.split_lineage[i.left.id].parent
                == p);
            if !m.tablets.contains_key(t) {
                let w = choose|w: TabletId| #[trigger]
                    m.split_lineage.contains_key(w) && m.split_lineage[w].parent == t;
                assert(n.split_lineage.contains_key(w) && n.split_lineage[w].parent == t);
            }
        }
    } else {
        lineage_frame(m, c, a);
        if m.tablets.contains_key(t) {
            tablets_frame(m, c, a, t);
        } else {
            let w = choose|w: TabletId| #[trigger]
                m.split_lineage.contains_key(w) && m.split_lineage[w].parent == t;
            assert(n.split_lineage.contains_key(w));
        }
    }
}

proof fn lineage_frame(m: MetadataModel, c: MetaCommand, a: AdviceModel)
    requires
        c !is CutoverSplit,
    ensures
        step(m, c, a).0.split_lineage == m.split_lineage,
{
}

proof fn tablets_frame(m: MetadataModel, c: MetaCommand, a: AdviceModel, t: TabletId)
    requires
        c !is CutoverSplit,
        !dropped(m, c, t),
        m.tablets.contains_key(t),
    ensures
        step(m, c, a).0.tablets.contains_key(t),
{
}

/// A backup that is ready to complete is completed when it is asked to be, and no other is; its
/// size is frozen as it is then.
pub proof fn a_ready_backup_can_be_completed(m: MetadataModel, c: MetaCommand, a: AdviceModel)
    requires
        c is CompleteBackup,
    ensures
        step(m, c, a).1 == ApplyOutcome::Applied <==> ready_to_complete(
            m,
            c->CompleteBackup_backup_id@,
        ),
        can_apply(m, c) && step(m, c, a).1 == ApplyOutcome::Applied ==> ({
            let id = c->CompleteBackup_backup_id@;
            let row = step(m, c, a).0.backups[id];
            row.status == BackupStatusModel::Available && row.total_bytes == sum_bytes(
                manifest_progress(m, id),
            )
        }),
{
}

/// The restorable window is that of the latest generation alone: a base snapshot that was taken
/// under another generation does not count.
pub proof fn superseded_snapshots_do_not_count(m: MetadataModel, table: Seq<char>, id: Seq<char>)
    requires
        m.backups.contains_key(id),
        window_generation(m, table) matches Some(g) ==> !taken_under(m.backups[id], g),
    ensures
        restore_window(
            MetadataModel { pitr_base_backups: m.pitr_base_backups.remove(id), ..m },
            table,
        ) == restore_window(m, table),
{
    let n = MetadataModel { pitr_base_backups: m.pitr_base_backups.remove(id), ..m };
    if let Some(g) = window_generation(m, table) {
        assert forall|w: u64|
            base_times(n, table, g).contains(w) == base_times(m, table, g).contains(w) by {
            if base_times(m, table, g).contains(w) {
                let x = choose|x: Seq<char>| #[trigger]
                    is_base_of(m, table, x) && taken_under(m.backups[x], g)
                        && m.backups[x].manifest.created_wall_ms == w;
                assert(is_base_of(n, table, x));
            }
            if base_times(n, table, g).contains(w) {
                let x = choose|x: Seq<char>| #[trigger]
                    is_base_of(n, table, x) && taken_under(n.backups[x], g)
                        && n.backups[x].manifest.created_wall_ms == w;
                assert(is_base_of(m, table, x));
            }
        }
        assert(base_times(n, table, g) =~= base_times(m, table, g));
        assert(segments_for_generation(n, table, g) == segments_for_generation(m, table, g));
        assert(seal_times(n, table, g) =~= seal_times(m, table, g));
        assert(last_seal_times(n, table, g) =~= last_seal_times(m, table, g));
    }
}

/// An identity that never came to life can be removed.
pub proof fn an_orphan_can_be_removed(m: MetadataModel, c: MetaCommand, a: AdviceModel)
    requires
        c is RemoveMember,
        is_claimed(m, c->RemoveMember_node.deep_view()),
        is_orphan(m, c->RemoveMember_node.deep_view()),
    ensures
        step(m, c, a).1 == ApplyOutcome::Applied,
        !is_claimed(step(m, c, a).0, c->RemoveMember_node.deep_view()),
{
}

/// Of two nodes that register under the same id with different address books, only the first gets
/// it.
pub proof fn one_registration_wins_an_id(
    m: MetadataModel,
    first: MetaCommand,
    second: MetaCommand,
    a: AdviceModel,
)
    requires
        first is RegisterNode,
        second is RegisterNode,
        first->RegisterNode_node.deep_view() == second->RegisterNode_node.deep_view(),
        first->RegisterNode_addrs.deep_view() != second->RegisterNode_addrs.deep_view(),
        step(m, first, a).1 == ApplyOutcome::Applied,
    ensures
        step(step(m, first, a).0, second, a).1 is Rejected,
{
}

/// Only registering claims an identity: no other command adds an address book for an id that is
/// neither a member's nor has one.
pub proof fn only_registering_claims_an_id(
    m: MetadataModel,
    c: MetaCommand,
    a: AdviceModel,
    node: Seq<char>,
)
    requires
        c !is RegisterNode,
        !is_claimed(m, node),
    ensures
        !step(m, c, a).0.node_addrs.contains_key(node),
{
    if !(c is RegisterNodeAddrs || c is RemoveMember) {
        node_addrs_frame(m, c, a);
    }
}

proof fn node_addrs_frame(m: MetadataModel, c: MetaCommand, a: AdviceModel)
    requires
        c !is RegisterNode,
        c !is RegisterNodeAddrs,
        c !is RemoveMember,
    ensures
        step(m, c, a).0.node_addrs == m.node_addrs,
{
}

/// Registering never touches a member that there is, and makes no member of a control node.
pub proof fn registering_keeps_the_members(
    m: MetadataModel,
    c: MetaCommand,
    a: AdviceModel,
    node: Seq<char>,
)
    requires
        c is RegisterNode,
    ensures
        m.members.contains_key(node) ==> step(m, c, a).0.members.contains_key(node) && step(
            m,
            c,
            a,
        ).0.members[node] == m.members[node],
        c->RegisterNode_addrs.role@ == "control"@ ==> step(m, c, a).0.members == m.members,
{
}

/// The ids that a command hands out.
pub open spec fn handed_out(c: MetaCommand) -> Set<TabletId> {
    match c {
        MetaCommand::CreateTablet { tablet, .. } => set![tablet],
        MetaCommand::BeginSplitInPlace { children, .. } => set![children[0].0, children[1].0],
        MetaCommand::BeginRestore { tablet, .. } => set![tablet],
        _ => Set::empty(),
    }
}

/// An id that is handed out lies below the allocator floor from then on, so that no split and no
/// restore gets it again.
pub proof fn a_handed_out_id_is_spent(
    m: MetadataModel,
    c: MetaCommand,
    a: AdviceModel,
    id: TabletId,
)
    requires
        can_apply(m, c),
        handed_out(c).contains(id),
        step(m, c, a).1 == ApplyOutcome::Applied,
    ensures
        id.0 < step(m, c, a).0.next_tablet_id,
        below_floor(step(m, c, a).0, id),
{
}

} // verus!
