//! Change streams: sealing, expiring and reading stream segments.
use crate::command::ApplyOutcome;
use crate::decimal::{append_decimal, decimal};
use crate::ids::TabletId;
use crate::meta::{Metadata, MetadataModel};
use crate::rows::{SplitLineage, StreamShardRow, StreamShardRowModel};
use crate::schema::StreamViewType;
use crate::segments::{last_epoch, last_segment};
use crate::sorted_map::{
    in_order, listing, lists, lookup, select_done, select_none, select_step, selected, take_grows,
    SortedSet,
};
use crate::tables::stream_of;
use crate::tablet_map::reject;
use crate::value::Value;
use vstd::prelude::*;
use vstd::string::StringExecFns;

verus! {

/// Whether a stream segment is one of `table` under `label`.
pub open spec fn labelled(
    rows: Map<(TabletId, u64), StreamShardRowModel>,
    table: Seq<char>,
    label: Seq<char>,
) -> spec_fn((TabletId, u64)) -> bool {
    |k: (TabletId, u64)| rows[k].table == table && rows[k].label == label
}

/// The stream segments of `table` under `label`.
pub open spec fn shards_for_label(
    m: MetadataModel,
    table: Seq<char>,
    label: Seq<char>,
) -> Set<(TabletId, u64)> {
    m.stream_shards.dom().filter(labelled(m.stream_shards, table, label))
}

/// Whether a segment may be sealed under `label`: the table's stream carries it, or a segment that
/// is still there does.
pub open spec fn label_licensed(m: MetadataModel, table: Seq<char>, label: Seq<char>) -> bool {
    (stream_of(m, table) matches Some(s) && s.label == label) || exists|k: (TabletId, u64)|
        shards_for_label(m, table, label).contains(k)
}

/// What sealing a stream segment does. The first segment that is recorded for a tablet and epoch
/// stays; only its replicas may move, and only for a proposal that agrees in all else.
pub open spec fn seal_stream_shard(
    m: MetadataModel,
    tablet: TabletId,
    epoch: u64,
    row: StreamShardRowModel,
) -> (MetadataModel, ApplyOutcome) {
    match lookup(m.stream_shards, (tablet, epoch)) {
        Some(existing) => {
            let moved = StreamShardRowModel { replicas: row.replicas, ..existing };
            if (StreamShardRowModel { expired: row.expired, ..moved }) != row || existing.replicas
                == row.replicas {
                (m, ApplyOutcome::NoOp)
            } else {
                (
                    MetadataModel {
                        stream_shards: m.stream_shards.insert((tablet, epoch), moved),
                        ..m
                    },
                    ApplyOutcome::Applied,
                )
            }
        },
        None => if !label_licensed(m, row.table, row.label) {
            reject(
                m,
                "stream label has no current schema entry and no existing catalog rows to extend",
            )
        } else if epoch > 0 && !m.stream_shards.contains_key((tablet, (epoch - 1) as u64)) {
            reject(m, "epoch chain gap: no prior epoch row for this tablet")
        } else {
            (
                MetadataModel {
                    stream_shards: m.stream_shards.insert((tablet, epoch), row),
                    ..m
                },
                ApplyOutcome::Applied,
            )
        },
    }
}

/// The stream catalog with the segments in `ids` marked as expired.
pub open spec fn marked_shards(
    rows: Map<(TabletId, u64), StreamShardRowModel>,
    ids: Set<(TabletId, u64)>,
) -> Map<(TabletId, u64), StreamShardRowModel> {
    Map::new(
        |k: (TabletId, u64)| rows.contains_key(k),
        |k: (TabletId, u64)|
            if ids.contains(k) {
                StreamShardRowModel { expired: true, ..rows[k] }
            } else {
                rows[k]
            },
    )
}

/// What expiring stream segments does: those that are there are marked, or taken out.
pub open spec fn expire_stream_shards(
    m: MetadataModel,
    ids: Seq<(TabletId, u64)>,
    remove: bool,
) -> (MetadataModel, ApplyOutcome) {
    let rows = if remove {
        m.stream_shards.remove_keys(ids.to_set())
    } else {
        marked_shards(m.stream_shards, ids.to_set())
    };
    if rows == m.stream_shards {
        (m, ApplyOutcome::NoOp)
    } else {
        (MetadataModel { stream_shards: rows, ..m }, ApplyOutcome::Applied)
    }
}

/// The name of a stream segment.
pub open spec fn shard_id(tablet: TabletId, epoch: u64) -> Seq<char> {
    "shardId-"@ + decimal(tablet.0 as nat) + "-"@ + decimal(epoch as nat)
}

/// The name of a stream segment.
fn shard_id_string(tablet: TabletId, epoch: u64) -> (r: String)
    ensures
        r@ == shard_id(tablet, epoch),
{
    let mut r: String = "shardId-".to_owned();
    append_decimal(&mut r, tablet.0);
    r.append("-");
    append_decimal(&mut r, epoch);
    r
}

/// The last segment that was sealed above a split child: that of the nearest ancestor that sealed
/// one, at most `budget` unsealed ancestors away.
pub open spec fn final_shard_above(
    lineage: Map<TabletId, SplitLineage>,
    tablet: TabletId,
    budget: nat,
) -> Option<(TabletId, u64)>
    decreases budget,
{
    match lookup(lineage, tablet) {
        None => None,
        Some(row) => match row.parents_final_epoch {
            Some(epoch) => Some((row.parent, epoch)),
            None => if budget == 0 {
                None
            } else {
                final_shard_above(lineage, row.parent, (budget - 1) as nat)
            },
        },
    }
}

/// The name of the segment that comes before a tablet's segment: the tablet's own previous one, or
/// for its first the last one sealed above it.
pub open spec fn parent_shard_id(m: MetadataModel, tablet: TabletId, epoch: u64) -> Option<
    Seq<char>,
> {
    if epoch > 0 {
        Some(shard_id(tablet, (epoch - 1) as u64))
    } else {
        match final_shard_above(m.split_lineage, tablet, m.split_lineage.dom().len()) {
            Some(p) => Some(shard_id(p.0, p.1)),
            None => None,
        }
    }
}

/// Whether a segment of `tablet` is one of `table` under `label`.
pub open spec fn in_chain(
    rows: Map<(TabletId, u64), StreamShardRowModel>,
    table: Seq<char>,
    label: Seq<char>,
    tablet: TabletId,
) -> spec_fn((TabletId, u64)) -> bool {
    |k: (TabletId, u64)| k.0 == tablet && rows[k].table == table && rows[k].label == label
}

/// The segments of `tablet` that are of `table` under `label`.
pub open spec fn chain_of(
    m: MetadataModel,
    table: Seq<char>,
    label: Seq<char>,
    tablet: TabletId,
) -> Set<(TabletId, u64)> {
    m.stream_shards.dom().filter(in_chain(m.stream_shards, table, label, tablet))
}

/// The epochs of the named segments beside their rows.
pub open spec fn chain_rows(m: MetadataModel, ids: Seq<(TabletId, u64)>) -> Seq<
    (u64, StreamShardRowModel),
> {
    Seq::new(ids.len(), |i: int| (ids[i].1, m.stream_shards[ids[i]]))
}

/// The named segments beside their rows.
pub open spec fn shard_rows(m: MetadataModel, ids: Seq<(TabletId, u64)>) -> Seq<
    (TabletId, u64, StreamShardRowModel),
> {
    Seq::new(ids.len(), |i: int| (ids[i].0, ids[i].1, m.stream_shards[ids[i]]))
}

/// The view type of `table` under `label`: that of the stream that is enabled, or that of the first
/// segment that is still there.
pub open spec fn view_type_of(m: MetadataModel, table: Seq<char>, label: Seq<char>) -> Option<
    StreamViewType,
> {
    match stream_of(m, table) {
        Some(s) if s.label == label => Some(s.view_type),
        _ => {
            let ids = listing::<(TabletId, u64)>(shards_for_label(m, table, label));
            if ids.len() > 0 {
                Some(m.stream_shards[ids[0]].view_type)
            } else {
                None
            }
        },
    }
}

/// How far the log of `tablet` has been sealed.
pub open spec fn stream_watermark(m: MetadataModel, tablet: TabletId) -> Option<u64> {
    match last_epoch(m.stream_shards, tablet) {
        Some(e) => Some(m.stream_shards[(tablet, e)].hlc_range.1),
        None => None,
    }
}

/// When `tablet` last sealed a stream segment.
pub open spec fn last_stream_seal(m: MetadataModel, tablet: TabletId) -> Option<u64> {
    match last_epoch(m.stream_shards, tablet) {
        Some(e) => Some(m.stream_shards[(tablet, e)].seal_wall_ms),
        None => None,
    }
}

impl Metadata {
    /// The segments of `tablet` that are of `table` under `label`, in ascending epoch order.
    pub fn stream_shard_chain(
        &self,
        table: &str,
        label: &str,
        tablet: TabletId,
    ) -> (r: Vec<(u64, &StreamShardRow)>)
        ensures
            r.deep_view() == chain_rows(
                self@,
                listing::<(TabletId, u64)>(chain_of(self@, table@, label@, tablet)),
            ),
            lists::<(TabletId, u64)>(
                listing::<(TabletId, u64)>(chain_of(self@, table@, label@, tablet)),
                chain_of(self@, table@, label@, tablet),
            ),
    {
        let table: String = table.to_owned();
        let label: String = label.to_owned();
        let n: usize = self.stream_shards.len();
        let ghost rows = self@.stream_shards;
        let ghost keys = self.stream_shards.keys();
        let ghost p = in_chain(rows, table@, label@, tablet);
        let ghost mut ids: Seq<(TabletId, u64)> = Seq::empty();
        let mut out: Vec<(u64, &StreamShardRow)> = Vec::new();
        let mut i: usize = 0;
        proof {
            select_none::<(TabletId, u64)>(keys, p);
        }
        while i < n
            invariant
                i <= n,
                n == keys.len(),
                keys == self.stream_shards.keys(),
                rows == self@.stream_shards,
                in_order(self.stream_shards),
                p == in_chain(rows, table@, label@, tablet),
                lists::<(TabletId, u64)>(ids, selected::<(TabletId, u64)>(keys, i as int, p)),
                out.deep_view() == chain_rows(self@, ids),
            decreases n - i,
        {
            let k: (TabletId, u64) = *self.stream_shards.key_at(i);
            let row: &StreamShardRow = self.stream_shards.value_at(i);
            proof {
                select_step::<(TabletId, u64)>(keys, i as int, p, ids);
                assert(rows[keys[i as int]] == self.stream_shards.values()[i as int]);
            }
            if k.0 == tablet && row.table.same(&table) && row.label.same(&label) {
                let ghost before = out.deep_view();
                out.push((k.1, row));
                proof {
                    ids = ids.push(k);
                    assert(out.deep_view() =~= before.push((k.1, row.deep_view())));
                    assert(out.deep_view() =~= chain_rows(self@, ids));
                }
            }
            i = i + 1;
        }
        proof {
            select_done::<(TabletId, u64)>(keys, rows.dom(), p, ids);
        }
        out
    }

    /// How far the log of `tablet` has been sealed, whatever the label: the end of its last
    /// segment.
    pub fn stream_shard_watermark(&self, tablet: TabletId) -> (r: Option<u64>)
        ensures
            r == stream_watermark(self@, tablet),
    {
        match last_segment(&self.stream_shards, tablet) {
            Some((_, row)) => Some(row.hlc_range.1),
            None => None,
        }
    }

    /// When `tablet` last sealed a stream segment.
    pub fn last_seal_wall_ms(&self, tablet: TabletId) -> (r: Option<u64>)
        ensures
            r == last_stream_seal(self@, tablet),
    {
        match last_segment(&self.stream_shards, tablet) {
            Some((_, row)) => Some(row.seal_wall_ms),
            None => None,
        }
    }

    /// The segments of `table` under `label`, over every tablet, in ascending order of tablet and
    /// epoch.
    pub fn stream_shard_rows_for_label(
        &self,
        table: &str,
        label: &str,
    ) -> (r: Vec<(TabletId, u64, &StreamShardRow)>)
        ensures
            r.deep_view() == shard_rows(
                self@,
                listing::<(TabletId, u64)>(shards_for_label(self@, table@, label@)),
            ),
            lists::<(TabletId, u64)>(
                listing::<(TabletId, u64)>(shards_for_label(self@, table@, label@)),
                shards_for_label(self@, table@, label@),
            ),
    {
        let table: String = table.to_owned();
        let label: String = label.to_owned();
        let n: usize = self.stream_shards.len();
        let ghost rows = self@.stream_shards;
        let ghost keys = self.stream_shards.keys();
        let ghost p = labelled(rows, table@, label@);
        let ghost mut ids: Seq<(TabletId, u64)> = Seq::empty();
        let mut out: Vec<(TabletId, u64, &StreamShardRow)> = Vec::new();
        let mut i: usize = 0;
        proof {
            select_none::<(TabletId, u64)>(keys, p);
        }
        while i < n
            invariant
                i <= n,
                n == keys.len(),
                keys == self.stream_shards.keys(),
                rows == self@.stream_shards,
                in_order(self.stream_shards),
                p == labelled(rows, table@, label@),
                lists::<(TabletId, u64)>(ids, selected::<(TabletId, u64)>(keys, i as int, p)),
                out.deep_view() == shard_rows(self@, ids),
            decreases n - i,
        {
            let k: (TabletId, u64) = *self.stream_shards.key_at(i);
            let row: &StreamShardRow = self.stream_shards.value_at(i);
            proof {
                select_step::<(TabletId, u64)>(keys, i as int, p, ids);
                assert(rows[keys[i as int]] == self.stream_shards.values()[i as int]);
            }
            if row.table.same(&table) && row.label.same(&label) {
                let ghost before = out.deep_view();
                out.push((k.0, k.1, row));
                proof {
                    ids = ids.push(k);
                    assert(out.deep_view() =~= before.push((k.0, k.1, row.deep_view())));
                    assert(out.deep_view() =~= shard_rows(self@, ids));
                }
            }
            i = i + 1;
        }
        proof {
            select_done::<(TabletId, u64)>(keys, rows.dom(), p, ids);
        }
        out
    }

    /// The view type of `table` under `label`: that of the stream while it is enabled under that
    /// label, else that of its segments; `None` if there is neither.
    pub fn stream_view_type(&self, table: &str, label: &str) -> (r: Option<StreamViewType>)
        ensures
            r == view_type_of(self@, table@, label@),
    {
        if let Some(spec) = self.table_stream(table) {
            if spec.label.same(&label.to_owned()) {
                return Some(spec.view_type);
            }
        }
        let rows: Vec<(TabletId, u64, &StreamShardRow)> = self.stream_shard_rows_for_label(
            table,
            label,
        );
        let ghost ids = listing::<(TabletId, u64)>(shards_for_label(self@, table@, label@));
        assert(rows.deep_view().len() == ids.len());
        if rows.len() > 0 {
            assert(rows.deep_view()[0] == (ids[0].0, ids[0].1, self@.stream_shards[ids[0]]));
            Some(rows[0].2.view_type)
        } else {
            None
        }
    }

    /// The labels under which `table` still has segments.
    pub fn stream_labels_with_rows(&self, table: &str) -> (r: SortedSet<String>)
        ensures
            forall|label: Seq<char>| #[trigger]
                r@.contains(label) <==> exists|k: (TabletId, u64)|
                    shards_for_label(self@, table@, label).contains(k),
    {
        let table: String = table.to_owned();
        let n: usize = self.stream_shards.len();
        let ghost rows = self@.stream_shards;
        let ghost keys = self.stream_shards.keys();
        let mut out: SortedSet<String> = SortedSet::new();
        let mut i: usize = 0;
        while i < n
            invariant
                i <= n,
                n == keys.len(),
                keys == self.stream_shards.keys(),
                rows == self@.stream_shards,
                in_order(self.stream_shards),
                forall|label: Seq<char>| #[trigger]
                    out@.contains(label) ==> exists|k: (TabletId, u64)|
                        shards_for_label(self@, table@, label).contains(k),
                forall|j: int|
                    0 <= j < i && (#[trigger] rows[keys[j]]).table == table@ ==> out@.contains(
                        rows[keys[j]].label,
                    ),
            decreases n - i,
        {
            let row: &StreamShardRow = self.stream_shards.value_at(i);
            let ghost k = keys[i as int];
            assert(rows.contains_key(k) && rows[k] == row.deep_view());
            if row.table.same(&table) {
                out.insert(row.label.dup());
                assert(shards_for_label(self@, table@, row.label@).contains(k));
            }
            i = i + 1;
        }
        proof {
            assert forall|label: Seq<char>|
                (exists|k: (TabletId, u64)|
                    shards_for_label(self@, table@, label).contains(k)) implies #[trigger]
            out@.contains(label) by {
                let k = choose|k: (TabletId, u64)|
                    shards_for_label(self@, table@, label).contains(k);
                assert(keys.contains(k));
                let j = choose|j: int| 0 <= j < keys.len() && keys[j] == k;
                assert(rows[keys[j]].table == table@);
            }
        }
        out
    }

    /// The name of the segment that comes before the one of `tablet` at `epoch`: the tablet's own
    /// previous segment, or for its first the last segment of the nearest tablet above it that
    /// sealed one. `None` for a root.
    pub fn stream_shard_parent_id(&self, tablet: TabletId, epoch: u64) -> (r: Option<String>)
        ensures
            r.deep_view() == parent_shard_id(self@, tablet, epoch),
    {
        if epoch > 0 {
            return Some(shard_id_string(tablet, epoch - 1));
        }
        let budget: usize = self.split_lineage.len();
        self.stream_shard_parent_id_bounded(tablet, budget)
    }

    fn stream_shard_parent_id_bounded(&self, tablet: TabletId, budget: usize) -> (r: Option<String>)
        ensures
            r.deep_view() == match final_shard_above(self@.split_lineage, tablet, budget as nat) {
                Some(p) => Some(shard_id(p.0, p.1)),
                None => None,
            },
        decreases budget,
    {
        match self.split_lineage.get(&tablet) {
            None => None,
            Some(row) => match row.parents_final_epoch {
                Some(epoch) => Some(shard_id_string(row.parent, epoch)),
                None => if budget == 0 {
                    None
                } else {
                    self.stream_shard_parent_id_bounded(row.parent, budget - 1)
                },
            },
        }
    }

    /// Whether a segment of `table` under `label` is still there.
    fn has_shard_for_label(&self, table: &String, label: &String) -> (b: bool)
        ensures
            b == exists|k: (TabletId, u64)| shards_for_label(self@, table@, label@).contains(k),
    {
        let rows: Vec<(TabletId, u64, &StreamShardRow)> = self.stream_shard_rows_for_label(
            table.as_str(),
            label.as_str(),
        );
        proof {
            let set = shards_for_label(self@, table@, label@);
            let ids = listing::<(TabletId, u64)>(set);
            assert(rows.deep_view().len() == ids.len());
            if ids.len() > 0 {
                assert(ids.contains(ids[0]));
            } else if exists|k: (TabletId, u64)| set.contains(k) {
                let k = choose|k: (TabletId, u64)| set.contains(k);
                assert(ids.contains(k));
            }
        }
        rows.len() > 0
    }

    pub(crate) fn apply_seal_stream_shard(
        &mut self,
        tablet: TabletId,
        epoch: u64,
        row: StreamShardRow,
    ) -> (out: ApplyOutcome)
        requires
            !row.expired,
        ensures
            (final(self)@, out) == seal_stream_shard(old(self)@, tablet, epoch, row.deep_view()),
    {
        let key: (TabletId, u64) = (tablet, epoch);
        let moved: Option<StreamShardRow> = match self.stream_shards.get(&key) {
            Some(existing) => {
                let content_matches: bool = existing.table.same(&row.table) && existing.label.same(
                    &row.label,
                ) && existing.view_type == row.view_type && existing.hlc_range.same(&row.hlc_range)
                    && existing.count == row.count && existing.seal_wall_ms == row.seal_wall_ms
                    && existing.object_id.same(&row.object_id);
                if !content_matches || existing.replicas.same(&row.replicas) {
                    return ApplyOutcome::NoOp;
                }
                let mut copy: StreamShardRow = existing.dup();
                copy.replicas = row.replicas.dup();
                Some(copy)
            },
            None => None,
        };
        if let Some(copy) = moved {
            self.stream_shards.insert(key, copy);
            return ApplyOutcome::Applied;
        }
        let current: bool = match self.table_stream(row.table.as_str()) {
            Some(spec) => spec.label.same(&row.label),
            None => false,
        };
        if !current && !self.has_shard_for_label(&row.table, &row.label) {
            return ApplyOutcome::Rejected(
                "stream label has no current schema entry and no existing catalog rows to extend",
            );
        }
        if epoch > 0 && !self.stream_shards.contains_key(&(tablet, epoch - 1)) {
            return ApplyOutcome::Rejected("epoch chain gap: no prior epoch row for this tablet");
        }
        self.stream_shards.insert(key, row);
        ApplyOutcome::Applied
    }

    pub(crate) fn apply_expire_stream_shards(
        &mut self,
        ids: &Vec<(TabletId, u64)>,
        remove: bool,
    ) -> (out: ApplyOutcome)
        ensures
            (final(self)@, out) == expire_stream_shards(old(self)@, ids.deep_view(), remove),
    {
        let ghost before = self@.stream_shards;
        let ghost all = ids.deep_view();
        let mut changed: bool = false;
        let mut i: usize = 0;
        proof {
            assert(all.take(0).to_set() =~= Set::empty());
            assert(before =~= before.remove_keys(all.take(0).to_set()));
            assert(before =~= marked_shards(before, all.take(0).to_set()));
        }
        while i < ids.len()
            invariant
                i <= ids@.len(),
                all == ids.deep_view(),
                all.len() == ids@.len(),
                before == old(self)@.stream_shards,
                self@ == (MetadataModel { stream_shards: self@.stream_shards, ..old(self)@ }),
                remove ==> self@.stream_shards == before.remove_keys(
                    all.take(i as int).to_set(),
                ),
                !remove ==> self@.stream_shards == marked_shards(
                    before,
                    all.take(i as int).to_set(),
                ),
                changed <==> self@.stream_shards != before,
            decreases ids@.len() - i,
        {
            let key: (TabletId, u64) = ids[i];
            let ghost prior = self@.stream_shards;
            proof {
                assert(all[i as int] == key);
                take_grows(all, i as int);
                assert(all.take(i + 1).to_set() =~= all.take(i as int).to_set().insert(key));
            }
            if remove {
                let taken: Option<StreamShardRow> = self.stream_shards.remove(&key);
                if taken.is_some() {
                    changed = true;
                    assert(before.contains_key(key) && !self@.stream_shards.contains_key(key));
                } else {
                    assert(self@.stream_shards =~= prior);
                }
                assert(self@.stream_shards =~= before.remove_keys(
                    all.take(i + 1).to_set(),
                ));
            } else {
                let marked: Option<StreamShardRow> = match self.stream_shards.get(&key) {
                    Some(row) => if row.expired {
                        None
                    } else {
                        let mut copy: StreamShardRow = row.dup();
                        copy.expired = true;
                        Some(copy)
                    },
                    None => None,
                };
                if let Some(row) = marked {
                    self.stream_shards.insert(key, row);
                    changed = true;
                    assert(!prior[key].expired && self@.stream_shards[key].expired);
                    assert(prior[key].expired <== (before[key].expired || all.take(
                        i as int,
                    ).to_set().contains(key)));
                    assert(!before[key].expired);
                }
                assert(self@.stream_shards =~= marked_shards(
                    before,
                    all.take(i + 1).to_set(),
                ));
            }
            i = i + 1;
        }
        assert(all.take(i as int) =~= all);
        if changed {
            ApplyOutcome::Applied
        } else {
            ApplyOutcome::NoOp
        }
    }
}

} // verus!
