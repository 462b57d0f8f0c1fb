//! What the commands on backups and restores do, field by field.
use crate::advice::AdviceModel;
use crate::apply::step;
use crate::backups::{
    frontier, is_capture_target, manifest_progress, pinned_set, progress_of, ready_to_complete,
    reports_of, sum_bytes, tablets_to_pin,
};
use crate::command::{ApplyOutcome, MetaCommand};
use crate::ids::TabletId;
use crate::lineage::{climb, live_descendants};
use crate::lineage_laws::{
    ancestors_form_a_chain, live_successors_are_distinct, live_successors_are_exact, stems_from,
};
use crate::meta::MetadataModel;
use crate::rows::{
    BackupId, BackupPinnedTabletModel, BackupRowModel, BackupStatusModel, BackupTabletProgress,
    RestoreRowModel, RestoreStatusModel,
};
use crate::sorted_map::{listing, listing_exists};
use crate::split_laws::{ids_unique, unique_ids_bound_the_lineage};
use crate::tablet::{KeyRangeModel, TabletState};
use crate::tablet_laws::{canonical_replicas_are_those_given, in_order_of};
use crate::value::Key;
use vstd::prelude::*;

verus! {

/// Whether one of the pins is that of `t`.
pub open spec fn pins_tablet(pinned: Seq<BackupPinnedTabletModel>, t: TabletId) -> bool {
    exists|i: int| 0 <= i < pinned.len() && (#[trigger] pinned[i]).tablet == t
}

/// A backup begins exactly if its id is free and its table is there. It is then being created, with
/// the name and the moment that were given and the schema that the table has; it is tagged as a
/// base snapshot if that was asked. No other backup changes, and nothing else does.
pub proof fn a_backup_begins_as_asked(m: MetadataModel, c: MetaCommand, a: AdviceModel)
    requires
        c is BeginBackup,
    ensures
        ({
            let (n, outcome) = step(m, c, a);
            let id = c->BeginBackup_backup_id@;
            let table = c->BeginBackup_table@;
            let row = n.backups[id];
            &&& outcome == ApplyOutcome::Applied <==> !m.backups.contains_key(id)
                && m.schemas.contains_key(table)
            &&& outcome != ApplyOutcome::NoOp
            &&& outcome == ApplyOutcome::Applied ==> {
                &&& n.backups.contains_key(id)
                &&& row.table == table
                &&& row.backup_name == c->BeginBackup_backup_name@
                &&& row.status == BackupStatusModel::Creating
                &&& row.total_bytes == 0
                &&& row.manifest.schema == m.schemas[table]
                &&& row.manifest.created_wall_ms == c->BeginBackup_created_wall_ms
                &&& n.pitr_base_backups.contains(id) <==> m.pitr_base_backups.contains(id)
                    || c->BeginBackup_pitr_base
            }
            &&& n.backups.remove(id) == m.backups.remove(id)
            &&& n.pitr_base_backups.remove(id) == m.pitr_base_backups.remove(id)
            &&& n == MetadataModel {
                backups: n.backups,
                pitr_base_backups: n.pitr_base_backups,
                ..m
            }
        }),
{
    let n = step(m, c, a).0;
    let id = c->BeginBackup_backup_id@;
    assert(n.backups.remove(id) =~= m.backups.remove(id));
    assert(n.pitr_base_backups.remove(id) =~= m.pitr_base_backups.remove(id));
}

/// A backup that begins covers its table: it pins every tablet of the table that serves its range,
/// splitting or not, with that range, each once and in ascending order, and it pins no other.
pub proof fn a_backup_covers_its_table(m: MetadataModel, c: MetaCommand, a: AdviceModel)
    requires
        c is BeginBackup,
        m.tablets.dom().finite(),
        step(m, c, a).1 == ApplyOutcome::Applied,
    ensures
        ({
            let table = c->BeginBackup_table@;
            let pinned = step(
                m,
                c,
                a,
            ).0.backups[c->BeginBackup_backup_id@].manifest.pinned_tablets;
            &&& forall|t: TabletId| #[trigger]
                pins_tablet(pinned, t) <==> m.tablets.contains_key(t) && m.tablets[t].table == Some(
                    table,
                ) && (m.tablets[t].state == TabletState::Active || m.tablets[t].state
                    == TabletState::Splitting)
            &&& forall|i: int|
                0 <= i < pinned.len() ==> (#[trigger] pinned[i]).range
                    == m.tablets[pinned[i].tablet].range
            &&& forall|i: int, j: int|
                0 <= i < j < pinned.len() ==> (#[trigger] pinned[i]).tablet.0 < (
                #[trigger] pinned[j]).tablet.0
        }),
{
    let table = c->BeginBackup_table@;
    let pinned = step(m, c, a).0.backups[c->BeginBackup_backup_id@].manifest.pinned_tablets;
    let set = tablets_to_pin(m, table);
    m.tablets.dom().lemma_len_filter(crate::backups::authoritative(m, table));
    listing_exists::<TabletId>(set);
    let ids = listing::<TabletId>(set);
    assert forall|t: TabletId| #[trigger]
        pins_tablet(pinned, t) <==> m.tablets.contains_key(t) && m.tablets[t].table == Some(table)
        && (m.tablets[t].state == TabletState::Active || m.tablets[t].state
        == TabletState::Splitting) by {
        if pins_tablet(pinned, t) {
            let i = choose|i: int| 0 <= i < pinned.len() && (#[trigger] pinned[i]).tablet == t;
            assert(ids.contains(ids[i]));
        }
        if set.contains(t) {
            assert(ids.contains(t));
            let i = choose|i: int| 0 <= i < ids.len() && ids[i] == t;
            assert(pinned[i].tablet == t);
        }
    }
    assert forall|i: int, j: int| 0 <= i < j < pinned.len() implies (
    #[trigger] pinned[i]).tablet.0 < (#[trigger] pinned[j]).tablet.0 by {
        assert(TabletId::before(ids[i], ids[j]));
    }
}

/// Whether `t`, or a tablet that so many splits lead up to from it, is pinned.
pub open spec fn comes_from_pinned(
    m: MetadataModel,
    pinned: Seq<BackupPinnedTabletModel>,
    t: TabletId,
) -> bool {
    exists|n: nat|
        n <= m.split_lineage.dom().len() && #[trigger] climb(m.split_lineage, t, n) is Some
            && pins_tablet(pinned, climb(m.split_lineage, t, n)->0)
}

/// A captured tablet is recorded exactly if the backup is being created, the tablet is pinned or
/// comes from one that is, and nothing was recorded for it before. What is recorded is what was
/// reported; a report that says the same again changes nothing, one that says otherwise is refused.
pub proof fn a_capture_is_recorded_as_reported(m: MetadataModel, c: MetaCommand, a: AdviceModel)
    requires
        c is RecordBackupTabletComplete,
    ensures
        ({
            let (n, outcome) = step(m, c, a);
            let id = c->RecordBackupTabletComplete_backup_id@;
            let t = c->RecordBackupTabletComplete_tablet;
            let k = (id, t);
            let cut = c->RecordBackupTabletComplete_cut_version;
            let bytes = c->RecordBackupTabletComplete_bytes;
            let due = m.backups.contains_key(id) && m.backups[id].status
                == BackupStatusModel::Creating && comes_from_pinned(
                m,
                m.backups[id].manifest.pinned_tablets,
                t,
            );
            let known = m.backup_tablet_progress[k];
            let reported = m.backup_tablet_progress.contains_key(k);
            &&& outcome == ApplyOutcome::Applied <==> due && !reported
            &&& outcome == ApplyOutcome::NoOp <==> due && reported && known.cut_version == cut
                && known.bytes == bytes
            &&& outcome == ApplyOutcome::Applied ==> {
                &&& n.backup_tablet_progress.contains_key(k)
                &&& n.backup_tablet_progress[k].cut_version == cut
                &&& n.backup_tablet_progress[k].bytes == bytes
            }
            &&& n.backup_tablet_progress.remove(k) == m.backup_tablet_progress.remove(k)
            &&& n == MetadataModel { backup_tablet_progress: n.backup_tablet_progress, ..m }
        }),
{
    let n = step(m, c, a).0;
    let id = c->RecordBackupTabletComplete_backup_id@;
    let t = c->RecordBackupTabletComplete_tablet;
    let k = (id, t);
    assert(n.backup_tablet_progress.remove(k) =~= m.backup_tablet_progress.remove(k));
    if m.backups.contains_key(id) {
        coming_from_pinned(m, m.backups[id].manifest.pinned_tablets, t);
    }
}

/// A tablet traces to the pinned ones exactly if it is one or splits lead up from it to one.
pub proof fn coming_from_pinned(m: MetadataModel, pinned: Seq<BackupPinnedTabletModel>, t: TabletId)
    ensures
        crate::lineage::traces_to(m.split_lineage, pinned_set(pinned), t) == comes_from_pinned(
            m,
            pinned,
            t,
        ),
{
    let l = m.split_lineage;
    let set = pinned_set(pinned);
    if crate::lineage::traces_to(l, set, t) {
        let n = choose|n: nat| n <= l.dom().len() && crate::lineage::traced(l, set, t, n);
        assert(climb(l, t, n) is Some && pins_tablet(pinned, climb(l, t, n)->0));
    }
    if comes_from_pinned(m, pinned, t) {
        let n = choose|n: nat|
            n <= l.dom().len() && #[trigger] climb(l, t, n) is Some && pins_tablet(
                pinned,
                climb(l, t, n)->0,
            );
        assert(crate::lineage::traced(l, set, t, n));
    }
}

/// A tablet is to be captured exactly if it is in the map, the backup is being created, and the
/// tablet is pinned or comes from one that is; a capture of it is then recorded.
pub proof fn a_capture_target_can_be_captured(
    m: MetadataModel,
    id: Seq<char>,
    t: TabletId,
    c: MetaCommand,
    a: AdviceModel,
)
    ensures
        is_capture_target(m, id, t) <==> m.backups.contains_key(id) && m.backups[id].status
            == BackupStatusModel::Creating && m.tablets.contains_key(t) && comes_from_pinned(
            m,
            m.backups[id].manifest.pinned_tablets,
            t,
        ),
        is_capture_target(m, id, t) && !m.backup_tablet_progress.contains_key((id, t))
            && c is RecordBackupTabletComplete && c->RecordBackupTabletComplete_backup_id@ == id
            && c->RecordBackupTabletComplete_tablet == t ==> step(m, c, a).1
            == ApplyOutcome::Applied,
{
    if m.backups.contains_key(id) {
        coming_from_pinned(m, m.backups[id].manifest.pinned_tablets, t);
    }
}

/// A backup is ready exactly if it is being created, and for each tablet that it pins there is a
/// tablet of the map that stems from it, and every one that does has been captured.
pub proof fn a_backup_is_ready_once_all_is_captured(m: MetadataModel, id: Seq<char>)
    requires
        ids_unique(m),
        m.split_lineage.dom().finite(),
        m.backups.contains_key(id),
    ensures
        ready_to_complete(m, id) <==> {
            let pinned = m.backups[id].manifest.pinned_tablets;
            &&& m.backups[id].status == BackupStatusModel::Creating
            &&& forall|i: int|
                0 <= i < pinned.len() ==> {
                    let p = (#[trigger] pinned[i]).tablet;
                    &&& exists|t: TabletId| #[trigger]
                        m.tablets.contains_key(t) && stems_from(m.split_lineage, t, p)
                    &&& forall|t: TabletId| #[trigger]
                        m.tablets.contains_key(t) && stems_from(m.split_lineage, t, p)
                            ==> m.backup_tablet_progress.contains_key((id, t))
                }
        },
        !m.backups.contains_key(id) ==> !ready_to_complete(m, id),
{
    let pinned = m.backups[id].manifest.pinned_tablets;
    assert forall|i: int| 0 <= i < pinned.len() implies (crate::backups::capture_complete(
        m,
        id,
        (#[trigger] pinned[i]).tablet,
    ) <==> captured_whole(m, id, pinned[i].tablet)) by {
        a_tablet_is_captured_with_its_successors(m, id, pinned[i].tablet);
    }
    if ready_to_complete(m, id) {
        assert forall|i: int| 0 <= i < pinned.len() implies captured_whole(
            m,
            id,
            (#[trigger] pinned[i]).tablet,
        ) by {
            assert(crate::backups::capture_complete(m, id, pinned[i].tablet));
        }
    }
}

/// Whether something of the map stems from `p`, and all of it has been captured.
pub open spec fn captured_whole(m: MetadataModel, id: Seq<char>, p: TabletId) -> bool {
    &&& exists|t: TabletId| #[trigger]
        m.tablets.contains_key(t) && stems_from(m.split_lineage, t, p)
    &&& forall|t: TabletId| #[trigger]
        m.tablets.contains_key(t) && stems_from(m.split_lineage, t, p)
            ==> m.backup_tablet_progress.contains_key((id, t))
}

proof fn a_tablet_is_captured_with_its_successors(m: MetadataModel, id: Seq<char>, p: TabletId)
    requires
        ids_unique(m),
        m.split_lineage.dom().finite(),
    ensures
        crate::backups::capture_complete(m, id, p) <==> captured_whole(m, id, p),
{
    let live = live_descendants(m, p);
    unique_ids_bound_the_lineage(m, MetaCommand::NoOp, arbitrary());
    assert forall|t: TabletId| live.contains(t) <==> m.tablets.contains_key(t) && stems_from(
        m.split_lineage,
        t,
        p,
    ) by {
        live_successors_are_exact(m, p, t);
    }
    if crate::backups::capture_complete(m, id, p) {
        assert(live.contains(live[0]));
        assert forall|t: TabletId| #[trigger]
            m.tablets.contains_key(t) && stems_from(m.split_lineage, t, p) implies
            m.backup_tablet_progress.contains_key((id, t)) by {
            assert(live.contains(t));
            let i = choose|i: int| 0 <= i < live.len() && live[i] == t;
            assert(m.backup_tablet_progress.contains_key((id, live[i])));
        }
    }
    if captured_whole(m, id, p) {
        let t = choose|t: TabletId| #[trigger]
            m.tablets.contains_key(t) && stems_from(m.split_lineage, t, p);
        assert(live.contains(t));
        assert forall|i: int| 0 <= i < live.len() implies m.backup_tablet_progress.contains_key(
            (id, #[trigger] live[i]),
        ) by {
            assert(live.contains(live[i]));
        }
    }
}

/// The bytes of captured tablets add up: a list without a tablet has none, and each tablet adds
/// what it captured, or nothing if it captured nothing.
pub proof fn captured_bytes_add_up(
    rows: Seq<(TabletId, Option<BackupTabletProgress>)>,
    t: TabletId,
    p: Option<BackupTabletProgress>,
)
    ensures
        sum_bytes(Seq::empty()) == 0,
        p is Some ==> sum_bytes(rows.push((t, p))) == sum_bytes(rows) + p->0.bytes,
        p is None ==> sum_bytes(rows.push((t, p))) == sum_bytes(rows),
{
    assert(rows.push((t, p)).drop_last() =~= rows);
}

/// The progress of a backup lists what stems from the tablets that it pins and is in the map, and
/// nothing else, each beside what was recorded for it.
pub proof fn progress_is_listed_as_recorded(
    m: MetadataModel,
    id: Seq<char>,
    t: TabletId,
    p: Option<BackupTabletProgress>,
)
    requires
        ids_unique(m),
        m.split_lineage.dom().finite(),
        m.backups.contains_key(id),
    ensures
        manifest_progress(m, id).contains((t, p)) <==> {
            let pinned = m.backups[id].manifest.pinned_tablets;
            &&& m.tablets.contains_key(t)
            &&& exists|i: int|
                0 <= i < pinned.len() && stems_from(
                    m.split_lineage,
                    t,
                    (#[trigger] pinned[i]).tablet,
                )
            &&& p is Some <==> m.backup_tablet_progress.contains_key((id, t))
            &&& p is Some ==> p->0 == m.backup_tablet_progress[(id, t)]
        },
{
    let pinned = m.backups[id].manifest.pinned_tablets;
    let ids = frontier(m, pinned);
    let rows = manifest_progress(m, id);
    the_frontier_is_what_stems(m, pinned, t);
    if rows.contains((t, p)) {
        let i = choose|i: int| 0 <= i < rows.len() && rows[i] == (t, p);
        assert(ids[i] == t);
        assert(ids.contains(t));
    }
    if ids.contains(t) {
        let i = choose|i: int| 0 <= i < ids.len() && ids[i] == t;
        assert(rows[i].0 == t);
        assert(rows.contains(rows[i]));
    }
}

proof fn the_frontier_is_what_stems(
    m: MetadataModel,
    pinned: Seq<BackupPinnedTabletModel>,
    t: TabletId,
)
    requires
        ids_unique(m),
        m.split_lineage.dom().finite(),
    ensures
        frontier(m, pinned).contains(t) <==> m.tablets.contains_key(t) && exists|i: int|
            0 <= i < pinned.len() && stems_from(m.split_lineage, t, (#[trigger] pinned[i]).tablet),
    decreases pinned.len(),
{
    if pinned.len() > 0 {
        let rest = pinned.drop_last();
        unique_ids_bound_the_lineage(m, MetaCommand::NoOp, arbitrary());
        the_frontier_is_what_stems(m, rest, t);
        live_successors_are_exact(m, pinned.last().tablet, t);
        let (x, y) = (frontier(m, rest), live_descendants(m, pinned.last().tablet));
        let all = frontier(m, pinned);
        assert(all == x + y);
        assert(pinned.last() == pinned[pinned.len() - 1]);
        if all.contains(t) {
            let i = choose|i: int| 0 <= i < all.len() && all[i] == t;
            if i < x.len() {
                assert(x[i] == t);
                let j = choose|j: int|
                    0 <= j < rest.len() && stems_from(
                        m.split_lineage,
                        t,
                        (#[trigger] rest[j]).tablet,
                    );
                assert(pinned[j] == rest[j]);
            } else {
                assert(y[i - x.len()] == t);
            }
        }
        if m.tablets.contains_key(t) && exists|i: int|
            0 <= i < pinned.len() && stems_from(
                m.split_lineage,
                t,
                (#[trigger] pinned[i]).tablet,
            ) {
            let i = choose|i: int|
                0 <= i < pinned.len() && stems_from(
                    m.split_lineage,
                    t,
                    (#[trigger] pinned[i]).tablet,
                );
            if i < rest.len() {
                assert(rest[i] == pinned[i]);
                assert(x.contains(t));
                let j = choose|j: int| 0 <= j < x.len() && x[j] == t;
                assert(all[j] == t);
            } else {
                assert(y.contains(t));
                let j = choose|j: int| 0 <= j < y.len() && y[j] == t;
                assert(all[x.len() + j] == t);
            }
        }
    }
}

/// The progress of a backup lists each tablet once, where none that it pins stems from another.
pub proof fn progress_lists_each_tablet_once(m: MetadataModel, id: Seq<char>)
    requires
        ids_unique(m),
        m.split_lineage.dom().finite(),
        m.backups.contains_key(id),
        forall|i: int, j: int|
            #![trigger m.backups[id].manifest.pinned_tablets[i],
                m.backups[id].manifest.pinned_tablets[j]]
            0 <= i < m.backups[id].manifest.pinned_tablets.len() && 0 <= j
                < m.backups[id].manifest.pinned_tablets.len() && i != j ==> !stems_from(
                m.split_lineage,
                m.backups[id].manifest.pinned_tablets[i].tablet,
                m.backups[id].manifest.pinned_tablets[j].tablet,
            ),
    ensures
        forall|i: int, j: int|
            #![trigger manifest_progress(m, id)[i], manifest_progress(m, id)[j]]
            0 <= i < j < manifest_progress(m, id).len() ==> manifest_progress(m, id)[i].0
                != manifest_progress(m, id)[j].0,
{
    let pinned = m.backups[id].manifest.pinned_tablets;
    let ids = frontier(m, pinned);
    let rows = manifest_progress(m, id);
    the_frontier_is_distinct(m, pinned);
    assert forall|i: int, j: int|
        #![trigger rows[i], rows[j]]
        0 <= i < j < rows.len() implies rows[i].0 != rows[j].0 by {
        assert(rows[i].0 == ids[i] && rows[j].0 == ids[j]);
    }
}

proof fn the_frontier_is_distinct(m: MetadataModel, pinned: Seq<BackupPinnedTabletModel>)
    requires
        ids_unique(m),
        m.split_lineage.dom().finite(),
        forall|i: int, j: int|
            #![trigger pinned[i], pinned[j]]
            0 <= i < pinned.len() && 0 <= j < pinned.len() && i != j ==> !stems_from(
                m.split_lineage,
                pinned[i].tablet,
                pinned[j].tablet,
            ),
    ensures
        frontier(m, pinned).no_duplicates(),
    decreases pinned.len(),
{
    if pinned.len() > 0 {
        let rest = pinned.drop_last();
        let p = pinned.last().tablet;
        unique_ids_bound_the_lineage(m, MetaCommand::NoOp, arbitrary());
        assert forall|i: int, j: int|
            #![trigger rest[i], rest[j]]
            0 <= i < rest.len() && 0 <= j < rest.len() && i != j implies !stems_from(
            m.split_lineage,
            rest[i].tablet,
            rest[j].tablet,
        ) by {
            assert(rest[i] == pinned[i] && rest[j] == pinned[j]);
        }
        the_frontier_is_distinct(m, rest);
        live_successors_are_distinct(m, p);
        let (x, y) = (frontier(m, rest), live_descendants(m, p));
        let all = frontier(m, pinned);
        assert(all == x + y);
        assert forall|i: int, j: int| 0 <= i < all.len() && 0 <= j < all.len() && i != j implies
            all[i] != all[j] by {
            if all[i] == all[j] && (i < x.len()) != (j < x.len()) {
                let t = all[i];
                let (k, l) = if i < x.len() {
                    (i, j - x.len())
                } else {
                    (j, i - x.len())
                };
                assert(x[k] == t && y[l] == t);
                assert(x.contains(t) && y.contains(t));
                the_frontier_is_what_stems(m, rest, t);
                live_successors_are_exact(m, p, t);
                let q = choose|q: int|
                    0 <= q < rest.len() && stems_from(
                        m.split_lineage,
                        t,
                        (#[trigger] rest[q]).tablet,
                    );
                assert(rest[q] == pinned[q] && pinned[pinned.len() - 1].tablet == p);
                ancestors_form_a_chain(m.split_lineage, t, pinned[q].tablet, p);
            }
        }
    }
}

/// The reports of a backup are its records, each once, in ascending order of tablet.
pub proof fn reports_are_the_records(m: MetadataModel, id: Seq<char>)
    requires
        m.backup_tablet_progress.dom().finite(),
    ensures
        ({
            let rows = reports_of(m, id);
            &&& forall|i: int|
                0 <= i < rows.len() ==> {
                    let (t, p) = #[trigger] rows[i];
                    m.backup_tablet_progress.contains_key((id, t)) && p
                        == m.backup_tablet_progress[(id, t)]
                }
            &&& forall|i: int, j: int|
                0 <= i < j < rows.len() ==> (#[trigger] rows[i]).0.0 < (#[trigger] rows[j]).0.0
            &&& forall|t: TabletId| #[trigger]
                m.backup_tablet_progress.contains_key((id, t)) ==> exists|i: int|
                    0 <= i < rows.len() && (#[trigger] rows[i]).0 == t
        }),
{
    let set = progress_of(m, id);
    m.backup_tablet_progress.dom().lemma_len_filter(crate::backups::captured_for(id));
    listing_exists::<(BackupId, TabletId)>(set);
    let ids = listing::<(BackupId, TabletId)>(set);
    let rows = reports_of(m, id);
    assert forall|i: int| 0 <= i < rows.len() implies ({
        let (t, p) = #[trigger] rows[i];
        m.backup_tablet_progress.contains_key((id, t)) && p == m.backup_tablet_progress[(id, t)]
    }) by {
        assert(ids.contains(ids[i]));
    }
    assert forall|i: int, j: int| 0 <= i < j < rows.len() implies (#[trigger] rows[i]).0.0 < (
    #[trigger] rows[j]).0.0 by {
        assert(ids.contains(ids[i]) && ids.contains(ids[j]));
        assert(<(BackupId, TabletId)>::before(ids[i], ids[j]));
        BackupId::before_irreflexive(id);
    }
    assert forall|t: TabletId| #[trigger]
        m.backup_tablet_progress.contains_key((id, t)) implies exists|i: int|
        0 <= i < rows.len() && (#[trigger] rows[i]).0 == t by {
        assert(set.contains((id, t)));
        assert(ids.contains((id, t)));
        let i = choose|i: int| 0 <= i < ids.len() && ids[i] == (id, t);
        assert(rows[i].0 == t);
    }
}

/// Whether nothing changed but the status of one backup, and its size.
pub open spec fn only_backup_changed(m: MetadataModel, n: MetadataModel, id: Seq<char>) -> bool {
    &&& n.backups.contains_key(id) <==> m.backups.contains_key(id)
    &&& m.backups.contains_key(id) ==> n.backups[id] == (BackupRowModel {
        status: n.backups[id].status,
        total_bytes: n.backups[id].total_bytes,
        ..m.backups[id]
    })
    &&& n.backups.remove(id) == m.backups.remove(id)
    &&& n == MetadataModel { backups: n.backups, ..m }
}

/// A backup that is ready becomes available, with the size of what was captured; any other is
/// refused, and nothing else of it changes.
pub proof fn a_ready_backup_becomes_available(m: MetadataModel, c: MetaCommand, a: AdviceModel)
    requires
        c is CompleteBackup,
        sum_bytes(manifest_progress(m, c->CompleteBackup_backup_id@)) <= u64::MAX,
    ensures
        ({
            let (n, outcome) = step(m, c, a);
            let id = c->CompleteBackup_backup_id@;
            &&& outcome == ApplyOutcome::Applied <==> ready_to_complete(m, id)
            &&& outcome != ApplyOutcome::NoOp
            &&& outcome == ApplyOutcome::Applied ==> n.backups[id].status
                == BackupStatusModel::Available && n.backups[id].total_bytes == sum_bytes(
                manifest_progress(m, id),
            )
            &&& only_backup_changed(m, n, id)
        }),
{
    let n = step(m, c, a).0;
    let id = c->CompleteBackup_backup_id@;
    assert(n.backups.remove(id) =~= m.backups.remove(id));
}

/// A backup that is being created, or has failed for another reason, fails for the reason that is
/// given; one that has ended otherwise is refused.
pub proof fn a_backup_fails_for_the_given_reason(m: MetadataModel, c: MetaCommand, a: AdviceModel)
    requires
        c is FailBackup,
    ensures
        ({
            let (n, outcome) = step(m, c, a);
            let id = c->FailBackup_backup_id@;
            let failed = BackupStatusModel::Failed { reason: c->FailBackup_reason@ };
            let status = m.backups[id].status;
            &&& outcome is Rejected <==> !m.backups.contains_key(id) || status
                == BackupStatusModel::Available || status == BackupStatusModel::Expired
            &&& outcome == ApplyOutcome::NoOp <==> m.backups.contains_key(id) && status == failed
            &&& outcome !is Rejected ==> n.backups[id].status == failed && n.backups[id].total_bytes
                == m.backups[id].total_bytes
            &&& only_backup_changed(m, n, id)
        }),
{
    let n = step(m, c, a).0;
    let id = c->FailBackup_backup_id@;
    assert(n.backups.remove(id) =~= m.backups.remove(id));
}

/// A deleted backup is gone, with its records and its tag; every other backup keeps its own.
pub proof fn a_deleted_backup_is_gone(m: MetadataModel, c: MetaCommand, a: AdviceModel)
    requires
        c is DeleteBackup,
    ensures
        ({
            let (n, outcome) = step(m, c, a);
            let id = c->DeleteBackup_backup_id@;
            &&& outcome == ApplyOutcome::Applied <==> m.backups.contains_key(id)
            &&& outcome !is Rejected
            &&& !n.backups.contains_key(id)
            &&& n.backups.remove(id) == m.backups.remove(id)
            &&& outcome == ApplyOutcome::Applied ==> {
                &&& forall|k: (Seq<char>, TabletId)| #[trigger]
                    n.backup_tablet_progress.contains_key(k)
                        <==> m.backup_tablet_progress.contains_key(k) && k.0 != id
                &&& forall|k: (Seq<char>, TabletId)| #[trigger]
                    n.backup_tablet_progress.contains_key(k) ==> n.backup_tablet_progress[k]
                        == m.backup_tablet_progress[k]
                &&& n.pitr_base_backups == m.pitr_base_backups.remove(id)
            }
            &&& n == MetadataModel {
                backups: n.backups,
                backup_tablet_progress: n.backup_tablet_progress,
                pitr_base_backups: n.pitr_base_backups,
                ..m
            }
        }),
{
    let n = step(m, c, a).0;
    let id = c->DeleteBackup_backup_id@;
    assert(n.backups.remove(id) =~= m.backups.remove(id));
}

/// A backup that is available or has failed is marked for reclaim; one that is being created is
/// refused, and one that is marked stays so.
pub proof fn an_ended_backup_is_marked(m: MetadataModel, c: MetaCommand, a: AdviceModel)
    requires
        c is MarkBackupDeleted,
    ensures
        ({
            let (n, outcome) = step(m, c, a);
            let id = c->MarkBackupDeleted_backup_id@;
            let status = m.backups[id].status;
            &&& outcome is Rejected <==> !m.backups.contains_key(id) || status
                == BackupStatusModel::Creating
            &&& outcome == ApplyOutcome::NoOp <==> m.backups.contains_key(id) && status
                == BackupStatusModel::Expired
            &&& outcome !is Rejected ==> n.backups[id].status == BackupStatusModel::Expired
                && n.backups[id].total_bytes == m.backups[id].total_bytes
            &&& only_backup_changed(m, n, id)
        }),
{
    let n = step(m, c, a).0;
    let id = c->MarkBackupDeleted_backup_id@;
    assert(n.backups.remove(id) =~= m.backups.remove(id));
}

/// A restore begins exactly if its id is free and its tablet's was never handed out. What it
/// records is what was asked: the backup, both tables, the tablet, the indexes and the recovery
/// plan. Its tablet is over every key of the target table, on the given nodes, and does not serve
/// yet.
pub proof fn a_restore_begins_as_asked(m: MetadataModel, c: MetaCommand, a: AdviceModel)
    requires
        c is BeginRestore,
        c->BeginRestore_tablet.0 < u64::MAX,
    ensures
        ({
            let (n, outcome) = step(m, c, a);
            let id = c->BeginRestore_restore_id@;
            let t = c->BeginRestore_tablet;
            let row = n.restores[id];
            &&& outcome == ApplyOutcome::Applied <==> {
                &&& !m.restores.contains_key(id)
                &&& t.0 >= 1
                &&& t.0 >= m.next_tablet_id
                &&& forall|u: TabletId| #[trigger] m.tablets.contains_key(u) ==> u.0 < t.0
            }
            &&& outcome != ApplyOutcome::NoOp
            &&& outcome == ApplyOutcome::Applied ==> {
                &&& n.restores.contains_key(id)
                &&& row.backup_id == c->BeginRestore_backup_id@
                &&& row.source_table == c->BeginRestore_source_table@
                &&& row.target_table == c->BeginRestore_target_table@
                &&& row.tablet == t
                &&& row.gsi_defs == c->BeginRestore_gsi_defs.deep_view()
                &&& row.pitr == c->BeginRestore_pitr.deep_view()
                &&& row.status == RestoreStatusModel::Seeding
                &&& n.tablets.contains_key(t)
                &&& n.tablets[t].id == t
                &&& n.tablets[t].table == Some(c->BeginRestore_target_table@)
                &&& n.tablets[t].range == (KeyRangeModel { start: Seq::empty(), end: None })
                &&& in_order_of(n.tablets[t].replicas, c->BeginRestore_replicas.deep_view())
                &&& n.tablets[t].epoch.0 == 0
                &&& n.tablets[t].state == TabletState::Building
                &&& n.tablets[t].inplace_split is None
                &&& n.next_tablet_id == t.0 + 1
            }
            &&& n.restores.remove(id) == m.restores.remove(id)
            &&& n.tablets.remove(t) == m.tablets.remove(t)
            &&& n == MetadataModel {
                tablets: n.tablets,
                next_tablet_id: n.next_tablet_id,
                restores: n.restores,
                ..m
            }
        }),
{
    let n = step(m, c, a).0;
    let id = c->BeginRestore_restore_id@;
    let t = c->BeginRestore_tablet;
    canonical_replicas_are_those_given(c->BeginRestore_replicas.deep_view());
    assert(n.restores.remove(id) =~= m.restores.remove(id));
    assert(n.tablets.remove(t) =~= m.tablets.remove(t));
}

/// A restore completes exactly if it is seeding and its tablet is there and being built. The tablet
/// then serves, one epoch on, and the restore is done; nothing else of either changes.
pub proof fn a_seeding_restore_completes(m: MetadataModel, c: MetaCommand, a: AdviceModel)
    requires
        c is CompleteRestore,
        m.tablets[m.restores[c->CompleteRestore_restore_id@].tablet].epoch.0 < u64::MAX,
    ensures
        ({
            let (n, outcome) = step(m, c, a);
            let id = c->CompleteRestore_restore_id@;
            let row = m.restores[id];
            let (was, now) = (m.tablets[row.tablet], n.tablets[row.tablet]);
            &&& outcome == ApplyOutcome::Applied <==> m.restores.contains_key(id) && row.status
                == RestoreStatusModel::Seeding && m.tablets.contains_key(row.tablet) && was.state
                == TabletState::Building
            &&& outcome != ApplyOutcome::NoOp
            &&& outcome == ApplyOutcome::Applied ==> {
                &&& n.tablets.contains_key(row.tablet)
                &&& now.state == TabletState::Active
                &&& now.epoch.0 == was.epoch.0 + 1
                &&& now.id == was.id
                &&& now.table == was.table
                &&& now.range == was.range
                &&& now.replicas == was.replicas
                &&& now.inplace_split == was.inplace_split
                &&& n.restores.contains_key(id)
                &&& n.restores[id] == (RestoreRowModel { status: RestoreStatusModel::Done, ..row })
            }
            &&& n.restores.remove(id) == m.restores.remove(id)
            &&& n.tablets.remove(row.tablet) == m.tablets.remove(row.tablet)
            &&& n == MetadataModel { tablets: n.tablets, restores: n.restores, ..m }
        }),
{
    let n = step(m, c, a).0;
    let id = c->CompleteRestore_restore_id@;
    let t = m.restores[id].tablet;
    assert(n.restores.remove(id) =~= m.restores.remove(id));
    assert(n.tablets.remove(t) =~= m.tablets.remove(t));
}

/// A restore that is not done fails for the reason that is given, and its tablet stays as it is.
pub proof fn a_restore_fails_for_the_given_reason(m: MetadataModel, c: MetaCommand, a: AdviceModel)
    requires
        c is FailRestore,
    ensures
        ({
            let (n, outcome) = step(m, c, a);
            let id = c->FailRestore_restore_id@;
            let failed = RestoreStatusModel::Failed { reason: c->FailRestore_reason@ };
            let row = m.restores[id];
            &&& outcome is Rejected <==> !m.restores.contains_key(id) || row.status
                == RestoreStatusModel::Done
            &&& outcome == ApplyOutcome::NoOp <==> m.restores.contains_key(id) && row.status
                == failed
            &&& outcome !is Rejected ==> n.restores.contains_key(id) && n.restores[id] == (
            RestoreRowModel { status: failed, ..row })
            &&& n.restores.remove(id) == m.restores.remove(id)
            &&& n == MetadataModel { restores: n.restores, ..m }
        }),
{
    let n = step(m, c, a).0;
    let id = c->FailRestore_restore_id@;
    assert(n.restores.remove(id) =~= m.restores.remove(id));
}

} // verus!
