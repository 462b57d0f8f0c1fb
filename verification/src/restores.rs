//! Restores: filling one fresh tablet from a backup.
use crate::command::ApplyOutcome;
use crate::ids::{next_epoch, NodeId, TabletId};
use crate::meta::{Metadata, MetadataModel};
use crate::rows::{RestoreId, RestoreRow, RestoreRowModel, RestoreStatus, RestoreStatusModel};
use crate::sorted_map::lookup;
use crate::tablet::{new_tablet, whole_range, KeyRange, Tablet, TabletModel, TabletState};
use crate::tablet_map::{below_floor, floor_past, reject};
use crate::value::Value;
use vstd::prelude::*;

verus! {

/// Why a restore may not begin, if it may not.
pub open spec fn begin_restore_refusal(
    m: MetadataModel,
    restore_id: Seq<char>,
    tablet: TabletId,
) -> Option<&'static str> {
    if m.restores.contains_key(restore_id) {
        Some("restore id already exists")
    } else if m.tablets.contains_key(tablet) {
        Some("tablet already exists")
    } else if below_floor(m, tablet) {
        Some("tablet id below the monotonic allocator")
    } else {
        None
    }
}

/// The numbers that beginning a restore counts up stay within 64 bits.
pub open spec fn begin_restore_bounded(
    m: MetadataModel,
    restore_id: Seq<char>,
    tablet: TabletId,
) -> bool {
    begin_restore_refusal(m, restore_id, tablet) is None ==> tablet.0 < u64::MAX
}

/// What beginning a restore does: one tablet over every key enters the map, not yet serving.
pub open spec fn begin_restore(
    m: MetadataModel,
    restore_id: Seq<char>,
    row: RestoreRowModel,
    replicas: Seq<Seq<char>>,
) -> (MetadataModel, ApplyOutcome) {
    match begin_restore_refusal(m, restore_id, row.tablet) {
        Some(why) => reject(m, why),
        None => (
            MetadataModel {
                tablets: m.tablets.insert(
                    row.tablet,
                    TabletModel {
                        state: TabletState::Building,
                        ..new_tablet(row.tablet, Some(row.target_table), whole_range(), replicas)
                    },
                ),
                next_tablet_id: floor_past(m.next_tablet_id, row.tablet),
                restores: m.restores.insert(restore_id, row),
                ..m
            },
            ApplyOutcome::Applied,
        ),
    }
}

/// Why a restore may not complete, if it may not.
pub open spec fn complete_restore_refusal(m: MetadataModel, restore_id: Seq<char>) -> Option<
    &'static str,
> {
    if !m.restores.contains_key(restore_id) {
        Some("no such restore")
    } else if m.restores[restore_id].status != RestoreStatusModel::Seeding {
        Some("restore is not Seeding")
    } else if !m.tablets.contains_key(m.restores[restore_id].tablet) {
        Some("restore's tablet no longer exists")
    } else if m.tablets[m.restores[restore_id].tablet].state != TabletState::Building {
        Some("restore's tablet is not Building")
    } else {
        None
    }
}

/// What completing a restore does: its tablet serves, one epoch on, and the row is done.
pub open spec fn complete_restore(m: MetadataModel, restore_id: Seq<char>) -> (
    MetadataModel,
    ApplyOutcome,
) {
    match complete_restore_refusal(m, restore_id) {
        Some(why) => reject(m, why),
        None => {
            let row = m.restores[restore_id];
            let t = m.tablets[row.tablet];
            (
                MetadataModel {
                    tablets: m.tablets.insert(
                        row.tablet,
                        TabletModel {
                            state: TabletState::Active,
                            epoch: next_epoch(t.epoch),
                            ..t
                        },
                    ),
                    restores: m.restores.insert(
                        restore_id,
                        RestoreRowModel { status: RestoreStatusModel::Done, ..row },
                    ),
                    ..m
                },
                ApplyOutcome::Applied,
            )
        },
    }
}

/// The epoch that completing a restore counts up stays within 64 bits.
pub open spec fn complete_restore_bounded(m: MetadataModel, restore_id: Seq<char>) -> bool {
    complete_restore_refusal(m, restore_id) is None
        ==> m.tablets[m.restores[restore_id].tablet].epoch.0 < u64::MAX
}

/// What giving a restore up does: its tablet stays as it is.
pub open spec fn fail_restore(m: MetadataModel, restore_id: Seq<char>, reason: Seq<char>) -> (
    MetadataModel,
    ApplyOutcome,
) {
    if !m.restores.contains_key(restore_id) {
        reject(m, "no such restore")
    } else {
        let row = m.restores[restore_id];
        let failed = MetadataModel {
            restores: m.restores.insert(
                restore_id,
                RestoreRowModel { status: RestoreStatusModel::Failed { reason }, ..row },
            ),
            ..m
        };
        match row.status {
            RestoreStatusModel::Seeding => (failed, ApplyOutcome::Applied),
            RestoreStatusModel::Failed { reason: existing } => if existing == reason {
                (m, ApplyOutcome::NoOp)
            } else {
                (failed, ApplyOutcome::Applied)
            },
            RestoreStatusModel::Done => reject(m, "restore already completed"),
        }
    }
}

impl Metadata {
    /// The row of a restore, if there is one.
    pub fn restore(&self, restore_id: &str) -> (r: Option<&RestoreRow>)
        ensures
            r.deep_view() == lookup(self@.restores, restore_id@),
    {
        self.restores.get(&restore_id.to_owned())
    }

    pub(crate) fn apply_begin_restore(
        &mut self,
        restore_id: &RestoreId,
        row: RestoreRow,
        replicas: &Vec<NodeId>,
    ) -> (out: ApplyOutcome)
        requires
            begin_restore_bounded(old(self)@, restore_id@, row.tablet),
        ensures
            (final(self)@, out) == begin_restore(
                old(self)@,
                restore_id@,
                row.deep_view(),
                replicas.deep_view(),
            ),
    {
        let tablet: TabletId = row.tablet;
        if self.restores.contains_key(restore_id) {
            return ApplyOutcome::Rejected("restore id already exists");
        }
        if self.tablets.contains_key(&tablet) {
            return ApplyOutcome::Rejected("tablet already exists");
        }
        if self.is_below_floor(tablet) {
            return ApplyOutcome::Rejected("tablet id below the monotonic allocator");
        }
        let mut t: Tablet = Tablet::with_table(
            tablet,
            Some(row.target_table.dup()),
            KeyRange::whole(),
            replicas.dup(),
        );
        t.state = TabletState::Building;
        self.tablets.insert(tablet, t);
        self.raise_floor(tablet);
        self.restores.insert(restore_id.dup(), row);
        ApplyOutcome::Applied
    }

    pub(crate) fn apply_complete_restore(&mut self, restore_id: &RestoreId) -> (out: ApplyOutcome)
        requires
            complete_restore_bounded(old(self)@, restore_id@),
        ensures
            (final(self)@, out) == complete_restore(old(self)@, restore_id@),
    {
        let mut row: RestoreRow = match self.restores.get(restore_id) {
            None => {
                return ApplyOutcome::Rejected("no such restore");
            },
            Some(row) => {
                match row.status {
                    RestoreStatus::Seeding => {},
                    _ => {
                        return ApplyOutcome::Rejected("restore is not Seeding");
                    },
                }
                row.dup()
            },
        };
        let tablet: TabletId = row.tablet;
        let mut t: Tablet = match self.tablets.get(&tablet) {
            None => {
                return ApplyOutcome::Rejected("restore's tablet no longer exists");
            },
            Some(t) => {
                if t.state != TabletState::Building {
                    return ApplyOutcome::Rejected("restore's tablet is not Building");
                }
                t.dup()
            },
        };
        t.state = TabletState::Active;
        t.epoch = t.epoch.next();
        self.tablets.insert(tablet, t);
        row.status = RestoreStatus::Done;
        self.restores.insert(restore_id.dup(), row);
        ApplyOutcome::Applied
    }

    pub(crate) fn apply_fail_restore(
        &mut self,
        restore_id: &RestoreId,
        reason: &String,
    ) -> (out: ApplyOutcome)
        ensures
            (final(self)@, out) == fail_restore(old(self)@, restore_id@, reason@),
    {
        let mut row: RestoreRow = match self.restores.get(restore_id) {
            None => {
                return ApplyOutcome::Rejected("no such restore");
            },
            Some(row) => {
                match &row.status {
                    RestoreStatus::Seeding => {},
                    RestoreStatus::Failed { reason: existing } => {
                        if existing.same(reason) {
                            return ApplyOutcome::NoOp;
                        }
                    },
                    RestoreStatus::Done => {
                        return ApplyOutcome::Rejected("restore already completed");
                    },
                }
                row.dup()
            },
        };
        row.status = RestoreStatus::Failed { reason: reason.dup() };
        self.restores.insert(restore_id.dup(), row);
        ApplyOutcome::Applied
    }
}

} // verus!
