//! Backups: what they pin, how their capture is followed across splits, and how they end.
use crate::command::ApplyOutcome;
use crate::ids::{TableName, TabletId};
use crate::lineage::{acyclic, climb, climb_prefix, live_descendants, traced, traces_to};
use crate::meta::{Metadata, MetadataModel};
use crate::rows::{
    BackupId, BackupManifest, BackupManifestModel, BackupPinnedTablet, BackupPinnedTabletModel,
    BackupRow, BackupRowModel, BackupStatus, BackupStatusModel, BackupTabletProgress,
};
use crate::schema::TableSchema;
use crate::sorted_map::{
    in_order, listing, lists, lookup, select_done, select_none, select_step, selected,
};
use crate::tablet::{Tablet, TabletState};
use crate::tablet_map::reject;
use crate::value::Value;
use vstd::prelude::*;

verus! {

/// Whether a tablet of `table` is a complete copy of its range.
pub open spec fn authoritative(m: MetadataModel, table: Seq<char>) -> spec_fn(TabletId) -> bool {
    |t: TabletId| m.tablets[t].table == Some(table) && m.tablets[t].state != TabletState::Building
}

/// The tablets that a backup of `table` has to capture.
pub open spec fn tablets_to_pin(m: MetadataModel, table: Seq<char>) -> Set<TabletId> {
    m.tablets.dom().filter(authoritative(m, table))
}

/// The named tablets with the ranges that they own.
pub open spec fn pins(m: MetadataModel, ids: Seq<TabletId>) -> Seq<BackupPinnedTabletModel> {
    Seq::new(
        ids.len(),
        |i: int| BackupPinnedTabletModel { tablet: ids[i], range: m.tablets[ids[i]].range },
    )
}

/// The row of a backup that begins: the schema and the tablets are those of this moment.
pub open spec fn fresh_backup(
    m: MetadataModel,
    table: Seq<char>,
    created_wall_ms: u64,
    backup_name: Seq<char>,
) -> BackupRowModel {
    BackupRowModel {
        table,
        backup_name,
        status: BackupStatusModel::Creating,
        manifest: BackupManifestModel {
            schema: m.schemas[table],
            pinned_tablets: pins(m, listing::<TabletId>(tablets_to_pin(m, table))),
            created_wall_ms,
        },
        total_bytes: 0,
    }
}

/// What beginning a backup does. A base snapshot is tagged in the same step.
pub open spec fn begin_backup(
    m: MetadataModel,
    backup_id: Seq<char>,
    table: Seq<char>,
    created_wall_ms: u64,
    backup_name: Seq<char>,
    pitr_base: bool,
) -> (MetadataModel, ApplyOutcome) {
    if m.backups.contains_key(backup_id) {
        reject(m, "backup id already exists")
    } else if !m.schemas.contains_key(table) {
        reject(m, "no such table schema")
    } else {
        (
            MetadataModel {
                backups: m.backups.insert(
                    backup_id,
                    fresh_backup(m, table, created_wall_ms, backup_name),
                ),
                pitr_base_backups: if pitr_base {
                    m.pitr_base_backups.insert(backup_id)
                } else {
                    m.pitr_base_backups
                },
                ..m
            },
            ApplyOutcome::Applied,
        )
    }
}

/// The tablets that a manifest pins.
pub open spec fn pinned_set(pinned: Seq<BackupPinnedTabletModel>) -> Set<TabletId> {
    Set::new(|t: TabletId| exists|i: int| 0 <= i < pinned.len() && #[trigger] pinned[i].tablet == t)
}

/// What recording a captured tablet does: it must be pinned, or split from one that is.
pub open spec fn record_backup_tablet_complete(
    m: MetadataModel,
    backup_id: Seq<char>,
    tablet: TabletId,
    progress: BackupTabletProgress,
) -> (MetadataModel, ApplyOutcome) {
    if !m.backups.contains_key(backup_id) {
        reject(m, "no such backup")
    } else if m.backups[backup_id].status != BackupStatusModel::Creating {
        reject(m, "backup is not Creating")
    } else if !traces_to(
        m.split_lineage,
        pinned_set(m.backups[backup_id].manifest.pinned_tablets),
        tablet,
    ) {
        reject(m, "tablet is not pinned in this backup")
    } else {
        match lookup(m.backup_tablet_progress, (backup_id, tablet)) {
            Some(existing) => if existing == progress {
                (m, ApplyOutcome::NoOp)
            } else {
                reject(m, "tablet already reported a different completion")
            },
            None => (
                MetadataModel {
                    backup_tablet_progress: m.backup_tablet_progress.insert(
                        (backup_id, tablet),
                        progress,
                    ),
                    ..m
                },
                ApplyOutcome::Applied,
            ),
        }
    }
}

/// Whether `tablet` is to be captured for a backup now: the backup is being created, the tablet is
/// live, and it is pinned or was split from one that is.
pub open spec fn is_capture_target(
    m: MetadataModel,
    backup_id: Seq<char>,
    tablet: TabletId,
) -> bool {
    match lookup(m.backups, backup_id) {
        Some(row) => row.status == BackupStatusModel::Creating && m.tablets.contains_key(tablet)
            && traces_to(m.split_lineage, pinned_set(row.manifest.pinned_tablets), tablet),
        None => false,
    }
}

/// Whether every live tablet that holds the keys of `pinned` has been captured; a pinned tablet
/// with no live successor never is.
pub open spec fn capture_complete(
    m: MetadataModel,
    backup_id: Seq<char>,
    pinned: TabletId,
) -> bool {
    let live = live_descendants(m, pinned);
    live.len() > 0 && forall|i: int|
        0 <= i < live.len() ==> m.backup_tablet_progress.contains_key(
            (backup_id, #[trigger] live[i]),
        )
}

/// Whether every pinned tablet has been captured.
pub open spec fn all_captured(
    m: MetadataModel,
    backup_id: Seq<char>,
    pinned: Seq<BackupPinnedTabletModel>,
) -> bool {
    forall|i: int|
        0 <= i < pinned.len() ==> capture_complete(m, backup_id, (#[trigger] pinned[i]).tablet)
}

/// Whether a backup is being created and every one of its tablets has been captured.
pub open spec fn ready_to_complete(m: MetadataModel, backup_id: Seq<char>) -> bool {
    match lookup(m.backups, backup_id) {
        Some(row) => row.status == BackupStatusModel::Creating && all_captured(
            m,
            backup_id,
            row.manifest.pinned_tablets,
        ),
        None => false,
    }
}

/// The live tablets that hold the keys of the pinned tablets today, pinned tablet by pinned tablet.
pub open spec fn frontier(m: MetadataModel, pinned: Seq<BackupPinnedTabletModel>) -> Seq<TabletId>
    decreases pinned.len(),
{
    if pinned.len() == 0 {
        Seq::empty()
    } else {
        frontier(m, pinned.drop_last()) + live_descendants(m, pinned.last().tablet)
    }
}

/// The named tablets beside what each has captured for a backup.
pub open spec fn progress_rows(m: MetadataModel, backup_id: Seq<char>, ids: Seq<TabletId>) -> Seq<
    (TabletId, Option<BackupTabletProgress>),
> {
    Seq::new(
        ids.len(),
        |i: int| (ids[i], lookup(m.backup_tablet_progress, (backup_id, ids[i]))),
    )
}

/// What the live successors of a backup's pinned tablets have captured.
pub open spec fn manifest_progress(m: MetadataModel, backup_id: Seq<char>) -> Seq<
    (TabletId, Option<BackupTabletProgress>),
> {
    match lookup(m.backups, backup_id) {
        Some(row) => progress_rows(m, backup_id, frontier(m, row.manifest.pinned_tablets)),
        None => Seq::empty(),
    }
}

/// The bytes that the listed tablets have captured.
pub open spec fn sum_bytes(rows: Seq<(TabletId, Option<BackupTabletProgress>)>) -> nat
    decreases rows.len(),
{
    if rows.len() == 0 {
        0
    } else {
        sum_bytes(rows.drop_last()) + match rows.last().1 {
            Some(p) => p.bytes as nat,
            None => 0,
        }
    }
}

/// A part of a list adds up to no more than the whole.
pub proof fn sum_bytes_prefix(rows: Seq<(TabletId, Option<BackupTabletProgress>)>, n: int)
    requires
        0 <= n <= rows.len(),
    ensures
        sum_bytes(rows.take(n)) <= sum_bytes(rows),
    decreases rows.len() - n,
{
    if n < rows.len() {
        sum_bytes_prefix(rows, n + 1);
        assert(rows.take(n + 1).drop_last() =~= rows.take(n));
    } else {
        assert(rows.take(n) =~= rows);
    }
}

/// Following the splits of a backup's tablets ends, and its size fits in 64 bits.
pub open spec fn backup_bounded(m: MetadataModel, backup_id: Seq<char>) -> bool {
    m.backups.contains_key(backup_id) ==> acyclic(m.split_lineage) && sum_bytes(
        manifest_progress(m, backup_id),
    ) <= u64::MAX
}

/// What completing a backup has to follow and to add up is bounded.
pub open spec fn complete_backup_bounded(m: MetadataModel, backup_id: Seq<char>) -> bool {
    m.backups.contains_key(backup_id) && m.backups[backup_id].status == BackupStatusModel::Creating
        ==> backup_bounded(m, backup_id)
}

/// What completing a backup does: its size is frozen as it is now.
pub open spec fn complete_backup(m: MetadataModel, backup_id: Seq<char>) -> (
    MetadataModel,
    ApplyOutcome,
) {
    if !m.backups.contains_key(backup_id) {
        reject(m, "no such backup")
    } else if m.backups[backup_id].status != BackupStatusModel::Creating {
        reject(m, "backup is not Creating")
    } else if !all_captured(m, backup_id, m.backups[backup_id].manifest.pinned_tablets) {
        reject(m, "not every pinned tablet has reported completion")
    } else {
        (
            MetadataModel {
                backups: m.backups.insert(
                    backup_id,
                    BackupRowModel {
                        status: BackupStatusModel::Available,
                        total_bytes: sum_bytes(manifest_progress(m, backup_id)) as u64,
                        ..m.backups[backup_id]
                    },
                ),
                ..m
            },
            ApplyOutcome::Applied,
        )
    }
}

/// The state with the status of a backup set.
pub open spec fn with_backup_status(
    m: MetadataModel,
    backup_id: Seq<char>,
    status: BackupStatusModel,
) -> MetadataModel {
    MetadataModel {
        backups: m.backups.insert(
            backup_id,
            BackupRowModel { status, ..m.backups[backup_id] },
        ),
        ..m
    }
}

/// What giving a backup up does: one that is complete or marked for reclaim stays as it is.
pub open spec fn fail_backup(m: MetadataModel, backup_id: Seq<char>, reason: Seq<char>) -> (
    MetadataModel,
    ApplyOutcome,
) {
    let failed = BackupStatusModel::Failed { reason };
    if !m.backups.contains_key(backup_id) {
        reject(m, "no such backup")
    } else {
        match m.backups[backup_id].status {
            BackupStatusModel::Creating => (
                with_backup_status(m, backup_id, failed),
                ApplyOutcome::Applied,
            ),
            BackupStatusModel::Failed { reason: existing } => if existing == reason {
                (m, ApplyOutcome::NoOp)
            } else {
                (with_backup_status(m, backup_id, failed), ApplyOutcome::Applied)
            },
            _ => reject(m, "backup is not in a failable state"),
        }
    }
}

/// Whether a progress record is one of `backup_id`.
pub open spec fn captured_for(backup_id: Seq<char>) -> spec_fn((Seq<char>, TabletId)) -> bool {
    |k: (Seq<char>, TabletId)| k.0 == backup_id
}

/// The progress records of a backup.
pub open spec fn progress_of(m: MetadataModel, backup_id: Seq<char>) -> Set<
    (Seq<char>, TabletId),
> {
    m.backup_tablet_progress.dom().filter(captured_for(backup_id))
}

/// What removing a backup does: its progress records and its tag go with it.
pub open spec fn delete_backup(m: MetadataModel, backup_id: Seq<char>) -> (
    MetadataModel,
    ApplyOutcome,
) {
    if !m.backups.contains_key(backup_id) {
        (m, ApplyOutcome::NoOp)
    } else {
        (
            MetadataModel {
                backups: m.backups.remove(backup_id),
                backup_tablet_progress: m.backup_tablet_progress.remove_keys(
                    progress_of(m, backup_id),
                ),
                pitr_base_backups: m.pitr_base_backups.remove(backup_id),
                ..m
            },
            ApplyOutcome::Applied,
        )
    }
}

/// What marking a backup for reclaim does: only one that has ended can be marked.
pub open spec fn mark_backup_deleted(m: MetadataModel, backup_id: Seq<char>) -> (
    MetadataModel,
    ApplyOutcome,
) {
    if !m.backups.contains_key(backup_id) {
        reject(m, "no such backup")
    } else {
        match m.backups[backup_id].status {
            BackupStatusModel::Expired => (m, ApplyOutcome::NoOp),
            BackupStatusModel::Creating => reject(m, "backup is not in a deletable state"),
            _ => (
                with_backup_status(m, backup_id, BackupStatusModel::Expired),
                ApplyOutcome::Applied,
            ),
        }
    }
}

/// Whether `tablet` is pinned by `pinned`.
fn is_pinned(pinned: &Vec<BackupPinnedTablet>, tablet: TabletId) -> (b: bool)
    ensures
        b == pinned_set(pinned.deep_view()).contains(tablet),
{
    let mut i: usize = 0;
    while i < pinned.len()
        invariant
            i <= pinned@.len(),
            forall|j: int| 0 <= j < i ==> (#[trigger] pinned@[j]).tablet != tablet,
        decreases pinned@.len() - i,
    {
        if pinned[i].tablet == tablet {
            assert(pinned.deep_view()[i as int].tablet == tablet);
            return true;
        }
        i = i + 1;
    }
    proof {
        if pinned_set(pinned.deep_view()).contains(tablet) {
            let j = choose|j: int|
                0 <= j < pinned.deep_view().len() && #[trigger] pinned.deep_view()[j].tablet
                    == tablet;
            assert(pinned@[j].tablet == tablet);
        }
    }
    false
}

impl Metadata {
    /// Whether `tablet`, or a tablet that it was split from, is pinned.
    fn traces_to_pinned(&self, pinned: &Vec<BackupPinnedTablet>, tablet: TabletId) -> (b: bool)
        ensures
            b == traces_to(self@.split_lineage, pinned_set(pinned.deep_view()), tablet),
    {
        let ghost lineage = self@.split_lineage;
        let ghost set = pinned_set(pinned.deep_view());
        let len: usize = self.split_lineage.len();
        let mut cur: TabletId = tablet;
        let mut n: usize = 0;
        loop
            invariant
                lineage == self@.split_lineage,
                set == pinned_set(pinned.deep_view()),
                len == lineage.dom().len(),
                n <= len,
                climb(lineage, tablet, n as nat) == Some(cur),
                forall|k: nat| k < n ==> !traced(lineage, set, tablet, k),
            decreases len - n,
        {
            if is_pinned(pinned, cur) {
                assert(traced(lineage, set, tablet, n as nat));
                return true;
            }
            assert(!traced(lineage, set, tablet, n as nat));
            match self.split_lineage.get(&cur) {
                None => {
                    proof {
                        assert(climb(lineage, tablet, (n + 1) as nat) is None);
                        assert forall|k: nat| !traced(lineage, set, tablet, k) by {
                            if k > n && climb(lineage, tablet, k) is Some {
                                climb_prefix(lineage, tablet, k, (n + 1) as nat);
                            }
                        }
                    }
                    return false;
                },
                Some(row) => {
                    if n == len {
                        assert forall|k: nat| k <= len implies !traced(
                            lineage,
                            set,
                            tablet,
                            k,
                        ) by {
                        }
                        return false;
                    }
                    cur = row.parent;
                    n = n + 1;
                },
            }
        }
    }

    /// Whether the share of a backup that `pinned` stands for has been captured.
    fn pinned_tablet_capture_complete(&self, backup_id: &String, pinned: TabletId) -> (b: bool)
        requires
            acyclic(self@.split_lineage),
        ensures
            b == capture_complete(self@, backup_id@, pinned),
    {
        let live: Vec<TabletId> = self.live_split_descendants(pinned);
        let ghost ids = live_descendants(self@, pinned);
        assert(live@.len() == live.deep_view().len());
        if live.len() == 0 {
            return false;
        }
        let mut i: usize = 0;
        while i < live.len()
            invariant
                i <= live@.len(),
                ids == live.deep_view(),
                ids.len() == live@.len(),
                ids == live_descendants(self@, pinned),
                forall|j: int|
                    0 <= j < i ==> self@.backup_tablet_progress.contains_key(
                        (backup_id@, #[trigger] ids[j]),
                    ),
            decreases live@.len() - i,
        {
            let key: (BackupId, TabletId) = (backup_id.dup(), live[i]);
            if !self.backup_tablet_progress.contains_key(&key) {
                assert(!self@.backup_tablet_progress.contains_key((backup_id@, ids[i as int])));
                return false;
            }
            i = i + 1;
        }
        true
    }

    /// Whether every one of `pinned` has been captured.
    fn every_tablet_captured(
        &self,
        backup_id: &String,
        pinned: &Vec<BackupPinnedTablet>,
    ) -> (b: bool)
        requires
            acyclic(self@.split_lineage),
        ensures
            b == all_captured(self@, backup_id@, pinned.deep_view()),
    {
        let ghost all = pinned.deep_view();
        let mut i: usize = 0;
        while i < pinned.len()
            invariant
                i <= pinned@.len(),
                all == pinned.deep_view(),
                all.len() == pinned@.len(),
                acyclic(self@.split_lineage),
                forall|j: int|
                    0 <= j < i ==> capture_complete(
                        self@,
                        backup_id@,
                        (#[trigger] all[j]).tablet,
                    ),
            decreases pinned@.len() - i,
        {
            assert(all[i as int].tablet == pinned@[i as int].tablet);
            if !self.pinned_tablet_capture_complete(backup_id, pinned[i].tablet) {
                return false;
            }
            i = i + 1;
        }
        true
    }

    /// Whether the backup is being created and every one of its tablets has been captured, itself
    /// or in the tablets that it was split into.
    pub fn backup_ready_to_complete(&self, backup_id: &str) -> (b: bool)
        requires
            self@.backups.contains_key(backup_id@) ==> acyclic(self@.split_lineage),
        ensures
            b == ready_to_complete(self@, backup_id@),
    {
        let id: String = backup_id.to_owned();
        match self.backups.get(&id) {
            None => false,
            Some(row) => match row.status {
                BackupStatus::Creating => self.every_tablet_captured(
                    &id,
                    &row.manifest.pinned_tablets,
                ),
                _ => false,
            },
        }
    }

    /// Whether `tablet` is to be captured for the backup now: the backup is being created, the
    /// tablet is live, and it is pinned or was split from one that is.
    pub fn backup_capture_target(&self, backup_id: &str, tablet: TabletId) -> (b: bool)
        ensures
            b == is_capture_target(self@, backup_id@, tablet),
    {
        match self.backups.get(&backup_id.to_owned()) {
            None => false,
            Some(row) => match row.status {
                BackupStatus::Creating => self.tablets.contains_key(&tablet)
                    && self.traces_to_pinned(&row.manifest.pinned_tablets, tablet),
                _ => false,
            },
        }
    }

    /// What the live successors of a backup's pinned tablets have captured; a report of a tablet
    /// that was split since does not count.
    pub fn backup_manifest_tablet_progress(
        &self,
        backup_id: &str,
    ) -> (r: Vec<(TabletId, Option<BackupTabletProgress>)>)
        requires
            self@.backups.contains_key(backup_id@) ==> acyclic(self@.split_lineage),
        ensures
            r.deep_view() == manifest_progress(self@, backup_id@),
    {
        let id: String = backup_id.to_owned();
        let mut out: Vec<(TabletId, Option<BackupTabletProgress>)> = Vec::new();
        match self.backups.get(&id) {
            None => {
                assert(out.deep_view() =~= Seq::empty());
            },
            Some(row) => {
                let pinned: &Vec<BackupPinnedTablet> = &row.manifest.pinned_tablets;
                let ghost all = pinned.deep_view();
                let mut i: usize = 0;
                assert(out.deep_view() =~= progress_rows(
                    self@,
                    id@,
                    frontier(self@, all.take(0)),
                ));
                while i < pinned.len()
                    invariant
                        i <= pinned@.len(),
                        all == pinned.deep_view(),
                        all.len() == pinned@.len(),
                        acyclic(self@.split_lineage),
                        out.deep_view() == progress_rows(
                            self@,
                            id@,
                            frontier(self@, all.take(i as int)),
                        ),
                    decreases pinned@.len() - i,
                {
                    let live: Vec<TabletId> = self.live_split_descendants(pinned[i].tablet);
                    let ghost ids = live.deep_view();
                    let ghost before = out.deep_view();
                    let mut j: usize = 0;
                    assert(before + progress_rows(self@, id@, ids.take(0)) =~= before);
                    while j < live.len()
                        invariant
                            j <= live@.len(),
                            ids == live.deep_view(),
                            ids.len() == live@.len(),
                            out.deep_view() == before + progress_rows(
                                self@,
                                id@,
                                ids.take(j as int),
                            ),
                        decreases live@.len() - j,
                    {
                        let t: TabletId = live[j];
                        let progress: Option<BackupTabletProgress> =
                            match self.backup_tablet_progress.get(&(id.dup(), t)) {
                            Some(p) => Some(*p),
                            None => None,
                        };
                        let ghost prior = out.deep_view();
                        out.push((t, progress));
                        proof {
                            let item = (ids[j as int], lookup(
                                self@.backup_tablet_progress,
                                (id@, ids[j as int]),
                            ));
                            assert(out.deep_view() =~= prior.push(item));
                            assert(progress_rows(self@, id@, ids.take(j + 1)) =~= progress_rows(
                                self@,
                                id@,
                                ids.take(j as int),
                            ).push(item));
                            assert(out.deep_view() =~= before + progress_rows(
                                self@,
                                id@,
                                ids.take(j + 1),
                            ));
                        }
                        j = j + 1;
                    }
                    proof {
                        assert(ids.take(j as int) =~= ids);
                        let next = all.take(i + 1);
                        assert(next.drop_last() =~= all.take(i as int));
                        assert(next.last().tablet == pinned@[i as int].tablet);
                        assert(frontier(self@, next) == frontier(self@, all.take(i as int)) + ids);
                        assert(progress_rows(self@, id@, frontier(self@, next))
                            =~= progress_rows(self@, id@, frontier(self@, all.take(i as int)))
                            + progress_rows(self@, id@, ids));
                    }
                    i = i + 1;
                }
                assert(all.take(i as int) =~= all);
            },
        }
        out
    }

    /// The row of a backup, if there is one.
    pub fn backup(&self, backup_id: &str) -> (r: Option<&BackupRow>)
        ensures
            r.deep_view() == lookup(self@.backups, backup_id@),
    {
        self.backups.get(&backup_id.to_owned())
    }

    /// The keys of the progress records of a backup, in ascending order.
    pub(crate) fn progress_keys_of(&self, backup_id: &String) -> (r: Vec<(BackupId, TabletId)>)
        ensures
            lists::<(BackupId, TabletId)>(r.deep_view(), progress_of(self@, backup_id@)),
            r.deep_view() == listing::<(BackupId, TabletId)>(progress_of(self@, backup_id@)),
    {
        let ghost p = captured_for(backup_id@);
        let ghost keys = self.backup_tablet_progress.keys();
        let n: usize = self.backup_tablet_progress.len();
        let mut out: Vec<(BackupId, TabletId)> = Vec::new();
        let mut i: usize = 0;
        proof {
            select_none::<(BackupId, TabletId)>(keys, p);
            assert(out.deep_view() =~= Seq::empty());
        }
        while i < n
            invariant
                i <= n,
                n == keys.len(),
                keys == self.backup_tablet_progress.keys(),
                in_order(self.backup_tablet_progress),
                p == captured_for(backup_id@),
                lists::<(BackupId, TabletId)>(
                    out.deep_view(),
                    selected::<(BackupId, TabletId)>(keys, i as int, p),
                ),
            decreases n - i,
        {
            let k: &(BackupId, TabletId) = self.backup_tablet_progress.key_at(i);
            proof {
                select_step::<(BackupId, TabletId)>(keys, i as int, p, out.deep_view());
            }
            if k.0.same(backup_id) {
                let ghost before = out.deep_view();
                out.push(k.dup());
                assert(out.deep_view() =~= before.push(keys[i as int]));
            }
            i = i + 1;
        }
        proof {
            select_done::<(BackupId, TabletId)>(
                keys,
                self@.backup_tablet_progress.dom(),
                p,
                out.deep_view(),
            );
        }
        out
    }

    /// The progress records of a backup, in ascending order of tablet.
    pub fn backup_tablet_progress_for(
        &self,
        backup_id: &str,
    ) -> (r: Vec<(TabletId, &BackupTabletProgress)>)
        ensures
            r.deep_view() == reports_of(self@, backup_id@),
    {
        let keys: Vec<(BackupId, TabletId)> = self.progress_keys_of(&backup_id.to_owned());
        let ghost ids = keys.deep_view();
        let mut out: Vec<(TabletId, &BackupTabletProgress)> = Vec::new();
        let mut i: usize = 0;
        while i < keys.len()
            invariant
                i <= keys@.len(),
                ids == keys.deep_view(),
                ids.len() == keys@.len(),
                lists::<(BackupId, TabletId)>(ids, progress_of(self@, backup_id@)),
                out.deep_view().len() == i,
                forall|j: int|
                    0 <= j < i ==> #[trigger] out.deep_view()[j] == (
                        ids[j].1,
                        self@.backup_tablet_progress[ids[j]],
                    ),
            decreases keys@.len() - i,
        {
            assert(ids.contains(ids[i as int]));
            assert(progress_of(self@, backup_id@).contains(ids[i as int]));
            if let Some(p) = self.backup_tablet_progress.get(&keys[i]) {
                let ghost before = out.deep_view();
                out.push((keys[i].1, p));
                assert(out.deep_view() =~= before.push(
                    (ids[i as int].1, self@.backup_tablet_progress[ids[i as int]]),
                ));
            }
            i = i + 1;
        }
        assert(out.deep_view() =~= reports_of(self@, backup_id@));
        out
    }

    /// How many bytes the live successors of a backup's pinned tablets have captured.
    pub fn backup_total_bytes(&self, backup_id: &str) -> (r: u64)
        requires
            backup_bounded(self@, backup_id@),
        ensures
            r == sum_bytes(manifest_progress(self@, backup_id@)),
    {
        let rows: Vec<(TabletId, Option<BackupTabletProgress>)> =
            self.backup_manifest_tablet_progress(backup_id);
        let ghost all = rows.deep_view();
        let mut sum: u64 = 0;
        let mut i: usize = 0;
        proof {
            if self@.backups.contains_key(backup_id@) {
                assert(sum_bytes(all) <= u64::MAX);
            } else {
                assert(sum_bytes(all) == 0);
            }
        }
        while i < rows.len()
            invariant
                i <= rows@.len(),
                all == rows.deep_view(),
                all.len() == rows@.len(),
                sum_bytes(all) <= u64::MAX,
                sum == sum_bytes(all.take(i as int)),
            decreases rows@.len() - i,
        {
            proof {
                sum_bytes_prefix(all, i + 1);
                assert(all.take(i + 1).drop_last() =~= all.take(i as int));
                assert(all.take(i + 1).last() == all[i as int]);
                assert(all[i as int].1 == rows@[i as int].1);
            }
            if let Some(p) = rows[i].1 {
                sum = sum + p.bytes;
            }
            i = i + 1;
        }
        assert(all.take(i as int) =~= all);
        sum
    }

    pub(crate) fn apply_begin_backup(
        &mut self,
        backup_id: &BackupId,
        table: &TableName,
        created_wall_ms: u64,
        backup_name: &String,
        pitr_base: bool,
    ) -> (out: ApplyOutcome)
        ensures
            (final(self)@, out) == begin_backup(
                old(self)@,
                backup_id@,
                table@,
                created_wall_ms,
                backup_name@,
                pitr_base,
            ),
    {
        if self.backups.contains_key(backup_id) {
            return ApplyOutcome::Rejected("backup id already exists");
        }
        let schema: TableSchema = match self.schemas.get(table) {
            None => {
                return ApplyOutcome::Rejected("no such table schema");
            },
            Some(schema) => schema.dup(),
        };
        let pinned_tablets: Vec<BackupPinnedTablet> = self.pin_tablets(table);
        self.backups.insert(
            backup_id.dup(),
            BackupRow {
                table: table.dup(),
                backup_name: backup_name.dup(),
                status: BackupStatus::Creating,
                manifest: BackupManifest { schema, pinned_tablets, created_wall_ms },
                total_bytes: 0,
            },
        );
        if pitr_base {
            self.pitr_base_backups.insert(backup_id.dup());
        }
        ApplyOutcome::Applied
    }

    /// The tablets that a backup of `table` has to capture, in ascending order.
    fn pin_tablets(&self, table: &TableName) -> (r: Vec<BackupPinnedTablet>)
        ensures
            r.deep_view() == pins(self@, listing::<TabletId>(tablets_to_pin(self@, table@))),
    {
        let n: usize = self.tablets.len();
        let ghost keys = self.tablets.keys();
        let ghost p = authoritative(self@, table@);
        let ghost mut ids: Seq<TabletId> = Seq::empty();
        let mut out: Vec<BackupPinnedTablet> = Vec::new();
        let mut i: usize = 0;
        proof {
            select_none::<TabletId>(keys, p);
            assert(out.deep_view() =~= pins(self@, ids));
        }
        while i < n
            invariant
                i <= n,
                n == keys.len(),
                keys == self.tablets.keys(),
                in_order(self.tablets),
                p == authoritative(self@, table@),
                lists::<TabletId>(ids, selected::<TabletId>(keys, i as int, p)),
                out.deep_view() == pins(self@, ids),
            decreases n - i,
        {
            let tablet: TabletId = *self.tablets.key_at(i);
            let t: &Tablet = self.tablets.value_at(i);
            proof {
                select_step::<TabletId>(keys, i as int, p, ids);
                assert(self@.tablets[keys[i as int]] == t.deep_view());
            }
            let mine: bool = match &t.table {
                Some(owner) => owner.same(table),
                None => false,
            };
            if mine && t.state != TabletState::Building {
                let ghost before = out.deep_view();
                let pin = BackupPinnedTablet { tablet, range: t.range.dup() };
                let ghost added = pin.deep_view();
                out.push(pin);
                proof {
                    assert(out.deep_view() =~= before.push(added));
                    ids = ids.push(tablet);
                    assert(out.deep_view() =~= pins(self@, ids));
                }
            }
            i = i + 1;
        }
        proof {
            select_done::<TabletId>(keys, self@.tablets.dom(), p, ids);
        }
        out
    }

    pub(crate) fn apply_record_backup_tablet_complete(
        &mut self,
        backup_id: &BackupId,
        tablet: TabletId,
        cut_version: u64,
        bytes: u64,
    ) -> (out: ApplyOutcome)
        ensures
            (final(self)@, out) == record_backup_tablet_complete(
                old(self)@,
                backup_id@,
                tablet,
                BackupTabletProgress { cut_version, bytes },
            ),
    {
        match self.backups.get(backup_id) {
            None => {
                return ApplyOutcome::Rejected("no such backup");
            },
            Some(row) => {
                match row.status {
                    BackupStatus::Creating => {},
                    _ => {
                        return ApplyOutcome::Rejected("backup is not Creating");
                    },
                }
                if !self.traces_to_pinned(&row.manifest.pinned_tablets, tablet) {
                    return ApplyOutcome::Rejected("tablet is not pinned in this backup");
                }
            },
        }
        let progress = BackupTabletProgress { cut_version, bytes };
        let key: (BackupId, TabletId) = (backup_id.dup(), tablet);
        if let Some(existing) = self.backup_tablet_progress.get(&key) {
            if existing.same(&progress) {
                return ApplyOutcome::NoOp;
            }
            return ApplyOutcome::Rejected("tablet already reported a different completion");
        }
        self.backup_tablet_progress.insert(key, progress);
        ApplyOutcome::Applied
    }

    pub(crate) fn apply_complete_backup(&mut self, backup_id: &BackupId) -> (out: ApplyOutcome)
        requires
            complete_backup_bounded(old(self)@, backup_id@),
        ensures
            (final(self)@, out) == complete_backup(old(self)@, backup_id@),
    {
        let mut row: BackupRow = match self.backups.get(backup_id) {
            None => {
                return ApplyOutcome::Rejected("no such backup");
            },
            Some(row) => {
                match row.status {
                    BackupStatus::Creating => {},
                    _ => {
                        return ApplyOutcome::Rejected("backup is not Creating");
                    },
                }
                if !self.every_tablet_captured(backup_id, &row.manifest.pinned_tablets) {
                    return ApplyOutcome::Rejected(
                        "not every pinned tablet has reported completion",
                    );
                }
                row.dup()
            },
        };
        row.total_bytes = self.backup_total_bytes(backup_id.as_str());
        row.status = BackupStatus::Available;
        self.backups.insert(backup_id.dup(), row);
        ApplyOutcome::Applied
    }

    pub(crate) fn apply_fail_backup(
        &mut self,
        backup_id: &BackupId,
        reason: &String,
    ) -> (out: ApplyOutcome)
        ensures
            (final(self)@, out) == fail_backup(old(self)@, backup_id@, reason@),
    {
        let mut row: BackupRow = match self.backups.get(backup_id) {
            None => {
                return ApplyOutcome::Rejected("no such backup");
            },
            Some(row) => {
                match &row.status {
                    BackupStatus::Creating => {},
                    BackupStatus::Failed { reason: existing } => {
                        if existing.same(reason) {
                            return ApplyOutcome::NoOp;
                        }
                    },
                    _ => {
                        return ApplyOutcome::Rejected("backup is not in a failable state");
                    },
                }
                row.dup()
            },
        };
        row.status = BackupStatus::Failed { reason: reason.dup() };
        self.backups.insert(backup_id.dup(), row);
        ApplyOutcome::Applied
    }

    pub(crate) fn apply_delete_backup(&mut self, backup_id: &BackupId) -> (out: ApplyOutcome)
        ensures
            (final(self)@, out) == delete_backup(old(self)@, backup_id@),
    {
        if !self.backups.contains_key(backup_id) {
            return ApplyOutcome::NoOp;
        }
        let keys: Vec<(BackupId, TabletId)> = self.progress_keys_of(backup_id);
        assert(keys.deep_view().to_set() =~= progress_of(self@, backup_id@));
        self.backups.remove(backup_id);
        self.backup_tablet_progress.remove_all(&keys);
        self.pitr_base_backups.remove(backup_id);
        ApplyOutcome::Applied
    }

    pub(crate) fn apply_mark_backup_deleted(&mut self, backup_id: &BackupId) -> (out: ApplyOutcome)
        ensures
            (final(self)@, out) == mark_backup_deleted(old(self)@, backup_id@),
    {
        let mut row: BackupRow = match self.backups.get(backup_id) {
            None => {
                return ApplyOutcome::Rejected("no such backup");
            },
            Some(row) => {
                match &row.status {
                    BackupStatus::Expired => {
                        return ApplyOutcome::NoOp;
                    },
                    BackupStatus::Creating => {
                        return ApplyOutcome::Rejected("backup is not in a deletable state");
                    },
                    _ => {},
                }
                row.dup()
            },
        };
        row.status = BackupStatus::Expired;
        self.backups.insert(backup_id.dup(), row);
        ApplyOutcome::Applied
    }
}

/// The progress records of a backup, in ascending order of tablet.
pub open spec fn reports_of(m: MetadataModel, backup_id: Seq<char>) -> Seq<
    (TabletId, BackupTabletProgress),
> {
    let ids = listing::<(BackupId, TabletId)>(progress_of(m, backup_id));
    Seq::new(ids.len(), |i: int| (ids[i].1, m.backup_tablet_progress[ids[i]]))
}

} // verus!
