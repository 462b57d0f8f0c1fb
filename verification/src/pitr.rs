//! Point-in-time recovery: its generations, its segments and what can be restored from them.
use crate::command::ApplyOutcome;
use crate::ids::{TableName, TabletId};
use crate::lineage::{children, split_from};
use crate::meta::{Metadata, MetadataModel};
use crate::rows::{
    BackupId, BackupRow, BackupRowModel, PitrReplaySegmentRef, PitrReplaySegmentRefModel,
    PitrRestoreWindow, PitrSegmentRow, PitrSegmentRowModel, SplitLineage,
};
use crate::schema::{PitrSpec, TableSchema, TableSchemaModel};
use crate::segments::{last_epoch, last_segment};
use crate::sorted_map::{
    in_order, listing, lists, lookup, select_done, select_none, select_step, selected, take_grows,
    SortedSet,
};
use crate::tables::{pitr_of, with_schema};
use crate::tablet_map::reject;
use crate::value::Value;
use vstd::prelude::*;

verus! {

/// The generation that enabling recovery for `table` gives it: one more than it ever had.
pub open spec fn next_generation(m: MetadataModel, table: Seq<char>) -> int {
    match lookup(m.pitr_generation, table) {
        Some(g) => g + 1,
        None => 1,
    }
}

/// What switching a table's recovery does: enabling starts a fresh generation, disabling leaves
/// the segments and the highest generation as they are.
pub open spec fn update_continuous_backups(
    m: MetadataModel,
    table: Seq<char>,
    enabled: bool,
    wall_ms: u64,
) -> (MetadataModel, ApplyOutcome) {
    if !m.schemas.contains_key(table) {
        reject(m, "no such table schema")
    } else if enabled == (m.schemas[table].pitr is Some) {
        (m, ApplyOutcome::NoOp)
    } else if enabled {
        let generation = next_generation(m, table) as u64;
        let pitr = Some(PitrSpec { generation, enabled_wall_ms: wall_ms });
        (
            MetadataModel {
                pitr_generation: m.pitr_generation.insert(table, generation),
                ..with_schema(m, table, TableSchemaModel { pitr, ..m.schemas[table] })
            },
            ApplyOutcome::Applied,
        )
    } else {
        (
            with_schema(m, table, TableSchemaModel { pitr: None, ..m.schemas[table] }),
            ApplyOutcome::Applied,
        )
    }
}

/// The generation that enabling recovery counts up to stays within 64 bits.
pub open spec fn generation_bounded(m: MetadataModel, table: Seq<char>, enabled: bool) -> bool {
    enabled && m.schemas.contains_key(table) && m.schemas[table].pitr is None ==> next_generation(
        m,
        table,
    ) <= u64::MAX
}

/// Whether a recovery segment is one of `table` under `generation`.
pub open spec fn of_generation(
    rows: Map<(TabletId, u64), PitrSegmentRowModel>,
    table: Seq<char>,
    generation: u64,
) -> spec_fn((TabletId, u64)) -> bool {
    |k: (TabletId, u64)| rows[k].table == table && rows[k].generation == generation
}

/// The recovery segments of `table` under `generation`.
pub open spec fn segments_for_generation(
    m: MetadataModel,
    table: Seq<char>,
    generation: u64,
) -> Set<(TabletId, u64)> {
    m.pitr_segments.dom().filter(of_generation(m.pitr_segments, table, generation))
}

/// Whether a segment may be sealed under `generation`: the table's recovery is at it, or a segment
/// that is still there is of it.
pub open spec fn generation_licensed(m: MetadataModel, table: Seq<char>, generation: u64) -> bool {
    (pitr_of(m, table) matches Some(s) && s.generation == generation) || exists|
        k: (TabletId, u64),
    |
        segments_for_generation(m, table, generation).contains(k)
}

/// What sealing a recovery segment does. The first segment that is recorded for a tablet and epoch
/// stays; only its replicas may move, and only for a proposal that agrees in all else.
pub open spec fn seal_pitr_segment(
    m: MetadataModel,
    tablet: TabletId,
    epoch: u64,
    row: PitrSegmentRowModel,
) -> (MetadataModel, ApplyOutcome) {
    match lookup(m.pitr_segments, (tablet, epoch)) {
        Some(existing) => {
            let moved = PitrSegmentRowModel { replicas: row.replicas, ..existing };
            if (PitrSegmentRowModel { expired: row.expired, ..moved }) != row || existing.replicas
                == row.replicas {
                (m, ApplyOutcome::NoOp)
            } else {
                (
                    MetadataModel {
                        pitr_segments: m.pitr_segments.insert((tablet, epoch), moved),
                        ..m
                    },
                    ApplyOutcome::Applied,
                )
            }
        },
        None => if !generation_licensed(m, row.table, row.generation) {
            reject(
                m,
                "PITR generation has no current schema entry and no existing catalog rows to extend",
            )
        } else if epoch > 0 && !m.pitr_segments.contains_key((tablet, (epoch - 1) as u64)) {
            reject(m, "epoch chain gap: no prior epoch row for this tablet")
        } else {
            (
                MetadataModel {
                    pitr_segments: m.pitr_segments.insert((tablet, epoch), row),
                    ..m
                },
                ApplyOutcome::Applied,
            )
        },
    }
}

/// The recovery catalog with the segments in `ids` marked as expired.
pub open spec fn marked_segments(
    rows: Map<(TabletId, u64), PitrSegmentRowModel>,
    ids: Set<(TabletId, u64)>,
) -> Map<(TabletId, u64), PitrSegmentRowModel> {
    Map::new(
        |k: (TabletId, u64)| rows.contains_key(k),
        |k: (TabletId, u64)|
            if ids.contains(k) {
                PitrSegmentRowModel { expired: true, ..rows[k] }
            } else {
                rows[k]
            },
    )
}

/// What expiring recovery segments does: those that are there are marked, or taken out.
pub open spec fn expire_pitr_segments(
    m: MetadataModel,
    ids: Seq<(TabletId, u64)>,
    remove: bool,
) -> (MetadataModel, ApplyOutcome) {
    let rows = if remove {
        m.pitr_segments.remove_keys(ids.to_set())
    } else {
        marked_segments(m.pitr_segments, ids.to_set())
    };
    if rows == m.pitr_segments {
        (m, ApplyOutcome::NoOp)
    } else {
        (MetadataModel { pitr_segments: rows, ..m }, ApplyOutcome::Applied)
    }
}

/// Whether a base snapshot is one of `table` and still in the catalog.
pub open spec fn is_base_of(m: MetadataModel, table: Seq<char>, id: Seq<char>) -> bool {
    m.pitr_base_backups.contains(id) && m.backups.contains_key(id) && m.backups[id].table == table
}

/// The base snapshots of `table`, each as its creation time and its id.
pub open spec fn base_keys(m: MetadataModel, table: Seq<char>) -> Set<(u64, Seq<char>)> {
    Set::new(
        |k: (u64, Seq<char>)|
            is_base_of(m, table, k.1) && m.backups[k.1].manifest.created_wall_ms == k.0,
    )
}

/// The base snapshots of `table` in ascending order of creation, those of one instant by id.
pub open spec fn bases_of(m: MetadataModel, table: Seq<char>) -> Seq<(u64, Seq<char>)> {
    listing::<(u64, BackupId)>(base_keys(m, table))
}

/// The named backups beside their rows.
pub open spec fn base_rows(m: MetadataModel, keys: Seq<(u64, Seq<char>)>) -> Seq<
    (Seq<char>, BackupRowModel),
> {
    Seq::new(keys.len(), |i: int| (keys[i].1, m.backups[keys[i].1]))
}

/// Whether a segment of `tablet` has something past `floor` and was sealed by `cutoff`.
pub open spec fn replayed(
    rows: Map<(TabletId, u64), PitrSegmentRowModel>,
    tablet: TabletId,
    floor: u64,
    cutoff: u64,
) -> spec_fn((TabletId, u64)) -> bool {
    |k: (TabletId, u64)|
        k.0 == tablet && rows[k].hlc_range.1 > floor && rows[k].seal_wall_ms <= cutoff
}

/// The reference that a plan makes to a segment: what of it lies past `floor`.
pub open spec fn segment_ref(
    rows: Map<(TabletId, u64), PitrSegmentRowModel>,
    k: (TabletId, u64),
    floor: u64,
) -> PitrReplaySegmentRefModel {
    let range = rows[k].hlc_range;
    PitrReplaySegmentRefModel {
        tablet: k.0,
        epoch: k.1,
        object_id: rows[k].object_id,
        replay_range: (
            if floor < range.0 {
                range.0
            } else {
                floor
            },
            range.1,
        ),
    }
}

/// The references to the named segments.
pub open spec fn segment_refs(
    rows: Map<(TabletId, u64), PitrSegmentRowModel>,
    ids: Seq<(TabletId, u64)>,
    floor: u64,
) -> Seq<PitrReplaySegmentRefModel> {
    Seq::new(ids.len(), |i: int| segment_ref(rows, ids[i], floor))
}

/// The segments of `tablet` to replay, in ascending epoch order.
pub open spec fn replay_of_tablet(
    m: MetadataModel,
    tablet: TabletId,
    floor: u64,
    cutoff: u64,
) -> Seq<PitrReplaySegmentRefModel> {
    let ids = listing::<(TabletId, u64)>(
        m.pitr_segments.dom().filter(replayed(m.pitr_segments, tablet, floor, cutoff)),
    );
    segment_refs(m.pitr_segments, ids, floor)
}

/// The tablets `ids` as pending visits below the root.
pub open spec fn pending(ids: Seq<TabletId>) -> Seq<(TabletId, bool)> {
    Seq::new(ids.len(), |i: int| (ids[i], false))
}

/// The segments to replay for the tablets on `stack` and all that were split from them, depth
/// first, over at most `fuel` tablets. Only the root is cut at the base snapshot's version.
pub open spec fn replay_walk(
    m: MetadataModel,
    stack: Seq<(TabletId, bool)>,
    fuel: nat,
    base_cut: u64,
    cutoff: u64,
) -> Seq<PitrReplaySegmentRefModel>
    decreases fuel,
{
    if stack.len() == 0 || fuel == 0 {
        Seq::empty()
    } else {
        let (tablet, is_root) = stack.last();
        let floor = if is_root {
            base_cut
        } else {
            0
        };
        replay_of_tablet(m, tablet, floor, cutoff) + replay_walk(
            m,
            stack.drop_last() + pending(
                listing::<TabletId>(children(m.split_lineage, tablet)),
            ),
            (fuel - 1) as nat,
            base_cut,
            cutoff,
        )
    }
}

/// The segments to replay on top of a base snapshot whose tablets were cut at the given versions.
pub open spec fn replay_plan(
    m: MetadataModel,
    base: Seq<(TabletId, u64)>,
    cutoff: u64,
) -> Seq<PitrReplaySegmentRefModel>
    decreases base.len(),
{
    if base.len() == 0 {
        Seq::empty()
    } else {
        let (tablet, cut) = base.last();
        replay_plan(m, base.drop_last(), cutoff) + replay_walk(
            m,
            seq![(tablet, true)],
            m.split_lineage.dom().len() + 1,
            cut,
            cutoff,
        )
    }
}

/// Whether `v` is the least of `s`.
pub open spec fn is_least(s: Set<u64>, v: u64) -> bool {
    s.contains(v) && forall|w: u64| #[trigger] s.contains(w) ==> v <= w
}

/// The least of `s`, if it has one.
pub open spec fn least(s: Set<u64>) -> Option<u64> {
    if exists|v: u64| is_least(s, v) {
        Some(choose|v: u64| is_least(s, v))
    } else {
        None
    }
}

proof fn least_is(s: Set<u64>, v: u64)
    requires
        is_least(s, v),
    ensures
        least(s) == Some(v),
{
    let w = choose|w: u64| is_least(s, w);
    assert(is_least(s, w));
}

/// Whether `v` is the greatest of `s`.
pub open spec fn is_greatest(s: Set<u64>, v: u64) -> bool {
    s.contains(v) && forall|w: u64| #[trigger] s.contains(w) ==> w <= v
}

/// The greatest of `s`, if it has one.
pub open spec fn greatest(s: Set<u64>) -> Option<u64> {
    if exists|v: u64| is_greatest(s, v) {
        Some(choose|v: u64| is_greatest(s, v))
    } else {
        None
    }
}

proof fn greatest_is(s: Set<u64>, v: u64)
    requires
        is_greatest(s, v),
    ensures
        greatest(s) == Some(v),
{
    let w = choose|w: u64| is_greatest(s, w);
    assert(is_greatest(s, w));
}

/// Whether a backup was taken under a recovery generation: its manifest has the schema of that
/// moment.
pub open spec fn taken_under(row: BackupRowModel, generation: u64) -> bool {
    row.manifest.schema.pitr matches Some(s) && s.generation == generation
}

/// The instants at which the base snapshots of `table` under `generation` were taken.
pub open spec fn base_times(m: MetadataModel, table: Seq<char>, generation: u64) -> Set<u64> {
    Set::new(
        |w: u64|
            exists|id: Seq<char>| #[trigger]
                is_base_of(m, table, id) && taken_under(m.backups[id], generation)
                    && m.backups[id].manifest.created_wall_ms == w,
    )
}

/// The instants at which the segments of `table` under `generation` were sealed.
pub open spec fn seal_times(m: MetadataModel, table: Seq<char>, generation: u64) -> Set<u64> {
    Set::new(
        |w: u64|
            exists|k: (TabletId, u64)| #[trigger]
                segments_for_generation(m, table, generation).contains(k)
                    && m.pitr_segments[k].seal_wall_ms == w,
    )
}

/// How far the recovery log of `tablet` has been sealed.
pub open spec fn pitr_watermark(m: MetadataModel, tablet: TabletId) -> Option<u64> {
    match last_epoch(m.pitr_segments, tablet) {
        Some(e) => Some(m.pitr_segments[(tablet, e)].hlc_range.1),
        None => None,
    }
}

/// When `tablet` last sealed a recovery segment.
pub open spec fn last_pitr_seal(m: MetadataModel, tablet: TabletId) -> Option<u64> {
    match last_epoch(m.pitr_segments, tablet) {
        Some(e) => Some(m.pitr_segments[(tablet, e)].seal_wall_ms),
        None => None,
    }
}

/// When each tablet that sealed a segment of `table` under `generation` last sealed one.
pub open spec fn last_seal_times(m: MetadataModel, table: Seq<char>, generation: u64) -> Set<u64> {
    Set::new(
        |w: u64|
            exists|k: (TabletId, u64)| #[trigger]
                segments_for_generation(m, table, generation).contains(k) && last_pitr_seal(
                    m,
                    k.0,
                ) == Some(w),
    )
}

/// The latest generation that the table's name ever had, if it ever had one.
pub open spec fn window_generation(m: MetadataModel, table: Seq<char>) -> Option<u64> {
    match pitr_of(m, table) {
        Some(s) => Some(s.generation),
        None => lookup(m.pitr_generation, table),
    }
}

/// Where the restorable window of `generation` starts: when it was enabled, or at its first base
/// snapshot, or at its first seal.
pub open spec fn window_start(m: MetadataModel, table: Seq<char>, generation: u64) -> Option<u64> {
    match pitr_of(m, table) {
        Some(s) => Some(s.enabled_wall_ms),
        None => match least(base_times(m, table, generation)) {
            Some(first) => Some(first),
            None => least(seal_times(m, table, generation)),
        },
    }
}

/// How far the restorable window of `generation` reaches: as far as the tablet that lags most has
/// sealed; before any seal, to its last base snapshot, or to when it was enabled.
pub open spec fn window_end(m: MetadataModel, table: Seq<char>, generation: u64) -> Option<u64> {
    if exists|k: (TabletId, u64)| segments_for_generation(m, table, generation).contains(k) {
        least(last_seal_times(m, table, generation))
    } else {
        match greatest(base_times(m, table, generation)) {
            Some(last) => Some(last),
            None => match pitr_of(m, table) {
                Some(s) => Some(s.enabled_wall_ms),
                None => None,
            },
        }
    }
}

/// The restorable window of the latest generation of `table`; `None` if it never had one.
pub open spec fn restore_window(m: MetadataModel, table: Seq<char>) -> Option<PitrRestoreWindow> {
    match window_generation(m, table) {
        Some(generation) if generation > 0 => match (
            window_start(m, table, generation),
            window_end(m, table, generation),
        ) {
            (Some(earliest_ms), Some(end)) => Some(
                PitrRestoreWindow {
                    generation,
                    earliest_ms,
                    latest_ms: if end < earliest_ms {
                        earliest_ms
                    } else {
                        end
                    },
                },
            ),
            _ => None,
        },
        _ => None,
    }
}

impl Metadata {
    /// How far the recovery log of `tablet` has been sealed: the end of its last segment.
    pub fn pitr_segment_watermark(&self, tablet: TabletId) -> (r: Option<u64>)
        ensures
            r == pitr_watermark(self@, tablet),
    {
        match last_segment(&self.pitr_segments, tablet) {
            Some((_, row)) => Some(row.hlc_range.1),
            None => None,
        }
    }

    /// When `tablet` last sealed a recovery segment.
    pub fn last_pitr_seal_wall_ms(&self, tablet: TabletId) -> (r: Option<u64>)
        ensures
            r == last_pitr_seal(self@, tablet),
    {
        match last_segment(&self.pitr_segments, tablet) {
            Some((_, row)) => Some(row.seal_wall_ms),
            None => None,
        }
    }

    /// The generations under which `table` still has recovery segments.
    pub fn pitr_generations_with_rows(&self, table: &str) -> (r: SortedSet<u64>)
        ensures
            forall|g: u64| #[trigger]
                r@.contains(g) <==> exists|k: (TabletId, u64)|
                    segments_for_generation(self@, table@, g).contains(k),
    {
        let table: String = table.to_owned();
        let n: usize = self.pitr_segments.len();
        let ghost rows = self@.pitr_segments;
        let ghost keys = self.pitr_segments.keys();
        let mut out: SortedSet<u64> = SortedSet::new();
        let mut i: usize = 0;
        while i < n
            invariant
                i <= n,
                n == keys.len(),
                keys == self.pitr_segments.keys(),
                rows == self@.pitr_segments,
                in_order(self.pitr_segments),
                forall|g: u64| #[trigger]
                    out@.contains(g) ==> exists|k: (TabletId, u64)|
                        segments_for_generation(self@, table@, g).contains(k),
                forall|j: int|
                    0 <= j < i && (#[trigger] rows[keys[j]]).table == table@ ==> out@.contains(
                        rows[keys[j]].generation,
                    ),
            decreases n - i,
        {
            let row: &PitrSegmentRow = self.pitr_segments.value_at(i);
            let ghost k = keys[i as int];
            assert(rows.contains_key(k) && rows[k] == row.deep_view());
            if row.table.same(&table) {
                out.insert(row.generation);
                assert(segments_for_generation(self@, table@, row.generation).contains(k));
            }
            i = i + 1;
        }
        proof {
            assert forall|g: u64|
                (exists|k: (TabletId, u64)|
                    segments_for_generation(self@, table@, g).contains(k)) implies #[trigger]
            out@.contains(g) by {
                let k = choose|k: (TabletId, u64)|
                    segments_for_generation(self@, table@, g).contains(k);
                assert(keys.contains(k));
                let j = choose|j: int| 0 <= j < keys.len() && keys[j] == k;
                assert(rows[keys[j]].table == table@);
            }
        }
        out
    }

    /// The creation times and ids of the base snapshots of `table`.
    fn pitr_base_keys(&self, table: &String) -> (r: SortedSet<(u64, BackupId)>)
        ensures
            r@ == base_keys(self@, table@),
    {
        let n: usize = self.pitr_base_backups.len();
        let ghost ids = self.pitr_base_backups.items();
        let mut out: SortedSet<(u64, BackupId)> = SortedSet::new();
        let mut i: usize = 0;
        while i < n
            invariant
                i <= n,
                n == ids.len(),
                ids == self.pitr_base_backups.items(),
                lists::<BackupId>(ids, self@.pitr_base_backups),
                forall|k: (u64, Seq<char>)| #[trigger]
                    out@.contains(k) <==> base_keys(self@, table@).contains(k) && ids.take(
                        i as int,
                    ).contains(k.1),
            decreases n - i,
        {
            let id: &BackupId = self.pitr_base_backups.at(i);
            proof {
                take_grows(ids, i as int);
                assert(ids.contains(ids[i as int]));
                assert(self@.pitr_base_backups.contains(id@));
            }
            if let Some(row) = self.backups.get(id) {
                if row.table.same(table) {
                    out.insert((row.manifest.created_wall_ms, id.dup()));
                }
            }
            i = i + 1;
        }
        proof {
            assert(ids.take(n as int) =~= ids);
            assert(out@ =~= base_keys(self@, table@));
        }
        out
    }

    /// The base snapshots of `table`, in ascending order of creation.
    pub fn pitr_base_backups_for_table(&self, table: &str) -> (r: Vec<(BackupId, &BackupRow)>)
        ensures
            r.deep_view() == base_rows(self@, bases_of(self@, table@)),
            lists::<(u64, BackupId)>(bases_of(self@, table@), base_keys(self@, table@)),
    {
        let set: SortedSet<(u64, BackupId)> = self.pitr_base_keys(&table.to_owned());
        let n: usize = set.len();
        let ghost keys = set.items();
        let mut out: Vec<(BackupId, &BackupRow)> = Vec::new();
        let mut i: usize = 0;
        assert(out.deep_view() =~= base_rows(self@, keys.take(0)));
        while i < n
            invariant
                i <= n,
                n == keys.len(),
                keys == set.items(),
                set@ == base_keys(self@, table@),
                lists::<(u64, BackupId)>(keys, set@),
                out.deep_view() == base_rows(self@, keys.take(i as int)),
            decreases n - i,
        {
            let k: &(u64, BackupId) = set.at(i);
            proof {
                assert(keys.contains(keys[i as int]));
                assert(base_keys(self@, table@).contains(keys[i as int]));
                assert(keys.take(i + 1) =~= keys.take(i as int).push(keys[i as int]));
            }
            if let Some(row) = self.backups.get(&k.1) {
                let ghost before = out.deep_view();
                out.push((k.1.dup(), row));
                assert(out.deep_view() =~= before.push((keys[i as int].1, row.deep_view())));
                assert(out.deep_view() =~= base_rows(self@, keys.take(i + 1)));
            }
            i = i + 1;
        }
        assert(keys.take(n as int) =~= keys);
        out
    }

    /// Appends the segments of `tablet` to replay.
    fn push_replay_of_tablet(
        &self,
        out: &mut Vec<PitrReplaySegmentRef>,
        tablet: TabletId,
        floor: u64,
        cutoff_wall_ms: u64,
    )
        ensures
            final(out).deep_view() == old(out).deep_view() + replay_of_tablet(
                self@,
                tablet,
                floor,
                cutoff_wall_ms,
            ),
    {
        let n: usize = self.pitr_segments.len();
        let ghost rows = self@.pitr_segments;
        let ghost keys = self.pitr_segments.keys();
        let ghost p = replayed(rows, tablet, floor, cutoff_wall_ms);
        let ghost start = out.deep_view();
        let ghost mut ids: Seq<(TabletId, u64)> = Seq::empty();
        let mut i: usize = 0;
        proof {
            select_none::<(TabletId, u64)>(keys, p);
            assert(out.deep_view() =~= start + segment_refs(rows, ids, floor));
        }
        while i < n
            invariant
                i <= n,
                n == keys.len(),
                keys == self.pitr_segments.keys(),
                rows == self@.pitr_segments,
                in_order(self.pitr_segments),
                p == replayed(rows, tablet, floor, cutoff_wall_ms),
                lists::<(TabletId, u64)>(ids, selected::<(TabletId, u64)>(keys, i as int, p)),
                out.deep_view() == start + segment_refs(rows, ids, floor),
            decreases n - i,
        {
            let k: (TabletId, u64) = *self.pitr_segments.key_at(i);
            let row: &PitrSegmentRow = self.pitr_segments.value_at(i);
            proof {
                select_step::<(TabletId, u64)>(keys, i as int, p, ids);
                assert(rows[keys[i as int]] == self.pitr_segments.values()[i as int]);
            }
            if k.0 == tablet && row.hlc_range.1 > floor && row.seal_wall_ms <= cutoff_wall_ms {
                let low: u64 = if floor < row.hlc_range.0 {
                    row.hlc_range.0
                } else {
                    floor
                };
                let ghost before = out.deep_view();
                let item = PitrReplaySegmentRef {
                    tablet,
                    epoch: k.1,
                    object_id: row.object_id.dup(),
                    replay_range: (low, row.hlc_range.1),
                };
                let ghost added = item.deep_view();
                out.push(item);
                proof {
                    assert(added == segment_ref(rows, k, floor));
                    assert(out.deep_view() =~= before.push(added));
                    ids = ids.push(k);
                    assert(out.deep_view() =~= start + segment_refs(rows, ids, floor));
                }
            }
            i = i + 1;
        }
        proof {
            select_done::<(TabletId, u64)>(keys, rows.dom(), p, ids);
        }
    }

    /// Pushes the tablets that `tablet` was split into, in ascending order.
    fn push_children(&self, stack: &mut Vec<(TabletId, bool)>, tablet: TabletId)
        ensures
            final(stack).deep_view() == old(stack).deep_view() + pending(
                listing::<TabletId>(children(self@.split_lineage, tablet)),
            ),
    {
        let n: usize = self.split_lineage.len();
        let ghost lineage = self@.split_lineage;
        let ghost keys = self.split_lineage.keys();
        let ghost p = split_from(lineage, tablet);
        let ghost start = stack.deep_view();
        let ghost mut ids: Seq<TabletId> = Seq::empty();
        let mut i: usize = 0;
        proof {
            select_none::<TabletId>(keys, p);
            assert(stack.deep_view() =~= start + pending(ids));
        }
        while i < n
            invariant
                i <= n,
                n == keys.len(),
                keys == self.split_lineage.keys(),
                lineage == self@.split_lineage,
                in_order(self.split_lineage),
                p == split_from(lineage, tablet),
                lists::<TabletId>(ids, selected::<TabletId>(keys, i as int, p)),
                stack.deep_view() == start + pending(ids),
            decreases n - i,
        {
            let child: TabletId = *self.split_lineage.key_at(i);
            let row: &SplitLineage = self.split_lineage.value_at(i);
            proof {
                select_step::<TabletId>(keys, i as int, p, ids);
                assert(lineage[keys[i as int]] == self.split_lineage.values()[i as int]);
            }
            if row.parent == tablet {
                let ghost before = stack.deep_view();
                stack.push((child, false));
                proof {
                    assert(stack.deep_view() =~= before.push((child, false)));
                    ids = ids.push(child);
                    assert(stack.deep_view() =~= start + pending(ids));
                }
            }
            i = i + 1;
        }
        proof {
            select_done::<TabletId>(keys, lineage.dom(), p, ids);
        }
    }

    /// The segments to replay on top of a base snapshot, given the version at which each of its
    /// tablets was cut, up to `cutoff_wall_ms`. A segment counts as a whole, by the instant at
    /// which it was sealed. Tablets that were split or dropped since are replayed too.
    pub fn pitr_replay_segments(
        &self,
        base_tablet_progress: &Vec<(TabletId, u64)>,
        cutoff_wall_ms: u64,
    ) -> (r: Vec<PitrReplaySegmentRef>)
        ensures
            r.deep_view() == replay_plan(
                self@,
                base_tablet_progress.deep_view(),
                cutoff_wall_ms,
            ),
    {
        let ghost base = base_tablet_progress.deep_view();
        let rows: usize = self.split_lineage.len();
        let mut out: Vec<PitrReplaySegmentRef> = Vec::new();
        let mut i: usize = 0;
        assert(out.deep_view() =~= replay_plan(self@, base.take(0), cutoff_wall_ms));
        while i < base_tablet_progress.len()
            invariant
                i <= base_tablet_progress@.len(),
                base == base_tablet_progress.deep_view(),
                base.len() == base_tablet_progress@.len(),
                rows == self@.split_lineage.dom().len(),
                out.deep_view() == replay_plan(self@, base.take(i as int), cutoff_wall_ms),
            decreases base_tablet_progress@.len() - i,
        {
            let (base_tablet, base_cut): (TabletId, u64) = base_tablet_progress[i];
            let ghost start = out.deep_view();
            let ghost whole = replay_walk(
                self@,
                seq![(base_tablet, true)],
                (rows + 1) as nat,
                base_cut,
                cutoff_wall_ms,
            );
            let mut stack: Vec<(TabletId, bool)> = Vec::new();
            stack.push((base_tablet, true));
            let mut fuel: u128 = rows as u128 + 1;
            assert(stack.deep_view() =~= seq![(base_tablet, true)]);
            assert(out.deep_view() + whole =~= start + whole);
            while fuel > 0 && stack.len() > 0
                invariant
                    out.deep_view() + replay_walk(
                        self@,
                        stack.deep_view(),
                        fuel as nat,
                        base_cut,
                        cutoff_wall_ms,
                    ) == start + whole,
                decreases fuel,
            {
                let ghost stack0 = stack.deep_view();
                let ghost out0 = out.deep_view();
                let ghost fuel0 = fuel as nat;
                assert(stack0.len() == stack@.len());
                match stack.pop() {
                    None => {},
                    Some((tablet, is_root)) => {
                        assert(stack0.last() == (tablet, is_root));
                        assert(stack.deep_view() =~= stack0.drop_last());
                        let floor: u64 = if is_root {
                            base_cut
                        } else {
                            0
                        };
                        self.push_replay_of_tablet(&mut out, tablet, floor, cutoff_wall_ms);
                        self.push_children(&mut stack, tablet);
                        fuel = fuel - 1;
                        proof {
                            let here = replay_of_tablet(self@, tablet, floor, cutoff_wall_ms);
                            let rest = replay_walk(
                                self@,
                                stack.deep_view(),
                                fuel as nat,
                                base_cut,
                                cutoff_wall_ms,
                            );
                            assert(replay_walk(self@, stack0, fuel0, base_cut, cutoff_wall_ms)
                                == here + rest);
                            assert(out.deep_view() + rest =~= out0 + (here + rest));
                        }
                    },
                }
            }
            proof {
                assert(stack@.len() == stack.deep_view().len());
                assert(replay_walk(
                    self@,
                    stack.deep_view(),
                    fuel as nat,
                    base_cut,
                    cutoff_wall_ms,
                ) =~= Seq::empty());
                assert(out.deep_view() =~= start + whole);
                let next = base.take(i + 1);
                assert(next.drop_last() =~= base.take(i as int));
                assert(base[i as int] == (base_tablet, base_cut));
                assert(next.last() == (base_tablet, base_cut));
            }
            i = i + 1;
        }
        assert(base.take(i as int) =~= base);
        out
    }

    /// The least instant at which a segment of `table` under `generation` was sealed, and the least
    /// of the last seals of the tablets that sealed one; `None` if there is no such segment.
    fn seal_bounds(&self, table: &String, generation: u64) -> (r: Option<(u64, u64)>)
        ensures
            match r {
                Some(p) => {
                    &&& least(seal_times(self@, table@, generation)) == Some(p.0)
                    &&& least(last_seal_times(self@, table@, generation)) == Some(p.1)
                    &&& exists|k: (TabletId, u64)|
                        segments_for_generation(self@, table@, generation).contains(k)
                },
                None => {
                    &&& least(seal_times(self@, table@, generation)) is None
                    &&& forall|k: (TabletId, u64)|
                        !segments_for_generation(self@, table@, generation).contains(k)
                },
            },
    {
        let n: usize = self.pitr_segments.len();
        let ghost rows = self@.pitr_segments;
        let ghost keys = self.pitr_segments.keys();
        let ghost set = segments_for_generation(self@, table@, generation);
        let ghost seals = seal_times(self@, table@, generation);
        let ghost lasts = last_seal_times(self@, table@, generation);
        let mut best: Option<(u64, u64)> = None;
        let mut i: usize = 0;
        while i < n
            invariant
                i <= n,
                n == keys.len(),
                keys == self.pitr_segments.keys(),
                rows == self@.pitr_segments,
                in_order(self.pitr_segments),
                set == segments_for_generation(self@, table@, generation),
                seals == seal_times(self@, table@, generation),
                lasts == last_seal_times(self@, table@, generation),
                best is None ==> forall|j: int| 0 <= j < i ==> !set.contains(#[trigger] keys[j]),
                best matches Some(p) ==> {
                    &&& seals.contains(p.0)
                    &&& lasts.contains(p.1)
                    &&& exists|k: (TabletId, u64)| set.contains(k)
                    &&& forall|j: int|
                        0 <= j < i && set.contains(#[trigger] keys[j]) ==> p.0
                            <= rows[keys[j]].seal_wall_ms
                    &&& forall|j: int|
                        0 <= j < i && set.contains(#[trigger] keys[j]) ==> p.1 <= last_pitr_seal(
                            self@,
                            keys[j].0,
                        )->0
                },
            decreases n - i,
        {
            let ghost k = keys[i as int];
            let row: &PitrSegmentRow = self.pitr_segments.value_at(i);
            assert(rows.contains_key(k) && rows[k] == row.deep_view());
            if row.table.same(table) && row.generation == generation {
                let tablet: TabletId = self.pitr_segments.key_at(i).0;
                assert(set.contains(k));
                let seal: u64 = row.seal_wall_ms;
                let last: u64 = match last_segment(&self.pitr_segments, tablet) {
                    Some((_, newest)) => newest.seal_wall_ms,
                    None => {
                        assert(rows.contains_key((tablet, k.1)));
                        seal
                    },
                };
                assert(last_pitr_seal(self@, k.0) == Some(last));
                assert(seals.contains(seal));
                assert(lasts.contains(last));
                best = match best {
                    None => Some((seal, last)),
                    Some((a, b)) => Some(
                        (
                            if seal < a {
                                seal
                            } else {
                                a
                            },
                            if last < b {
                                last
                            } else {
                                b
                            },
                        ),
                    ),
                };
            }
            i = i + 1;
        }
        proof {
            assert forall|k: (TabletId, u64)| set.contains(k) implies exists|j: int|
                0 <= j < keys.len() && #[trigger] keys[j] == k by {
                assert(keys.contains(k));
            }
            match best {
                Some(p) => {
                    assert forall|w: u64| #[trigger] seals.contains(w) implies p.0 <= w by {
                        let k = choose|k: (TabletId, u64)| #[trigger]
                            set.contains(k) && rows[k].seal_wall_ms == w;
                        assert(set.contains(k));
                        let j = choose|j: int| 0 <= j < keys.len() && #[trigger] keys[j] == k;
                        assert(set.contains(keys[j]));
                    }
                    assert forall|w: u64| #[trigger] lasts.contains(w) implies p.1 <= w by {
                        let k = choose|k: (TabletId, u64)| #[trigger]
                            set.contains(k) && last_pitr_seal(self@, k.0) == Some(w);
                        assert(set.contains(k));
                        let j = choose|j: int| 0 <= j < keys.len() && #[trigger] keys[j] == k;
                        assert(set.contains(keys[j]));
                    }
                    least_is(seals, p.0);
                    least_is(lasts, p.1);
                },
                None => {
                    assert forall|k: (TabletId, u64)| !set.contains(k) by {
                        if set.contains(k) {
                            let j = choose|j: int| 0 <= j < keys.len() && #[trigger] keys[j] == k;
                            assert(!set.contains(keys[j]));
                        }
                    }
                    assert forall|w: u64| !seals.contains(w) by {
                    }
                },
            }
        }
        best
    }

    /// When the first and the last base snapshot of `table` under `generation` were taken.
    fn base_bounds(&self, table: &str, generation: u64) -> (r: Option<(u64, u64)>)
        ensures
            match r {
                Some(p) => least(base_times(self@, table@, generation)) == Some(p.0) && greatest(
                    base_times(self@, table@, generation),
                ) == Some(p.1),
                None => least(base_times(self@, table@, generation)) is None && greatest(
                    base_times(self@, table@, generation),
                ) is None,
            },
    {
        let bases: Vec<(BackupId, &BackupRow)> = self.pitr_base_backups_for_table(table);
        let ghost keys = bases_of(self@, table@);
        let ghost set = base_keys(self@, table@);
        let ghost times = base_times(self@, table@, generation);
        let mut best: Option<(u64, u64)> = None;
        let mut i: usize = 0;
        proof {
            assert(bases.deep_view().len() == keys.len());
            assert forall|j: int| 0 <= j < keys.len() implies set.contains(#[trigger] keys[j]) by {
                assert(keys.contains(keys[j]));
            }
        }
        while i < bases.len()
            invariant
                i <= bases@.len(),
                bases.deep_view() == base_rows(self@, keys),
                bases@.len() == keys.len(),
                set == base_keys(self@, table@),
                forall|j: int| 0 <= j < keys.len() ==> set.contains(#[trigger] keys[j]),
                times == base_times(self@, table@, generation),
                match best {
                    Some(p) => times.contains(p.0) && times.contains(p.1) && forall|j: int|
                        0 <= j < i && taken_under(
                            self@.backups[(#[trigger] keys[j]).1],
                            generation,
                        ) ==> p.0 <= keys[j].0 <= p.1,
                    None => forall|j: int|
                        0 <= j < i ==> !taken_under(
                            self@.backups[(#[trigger] keys[j]).1],
                            generation,
                        ),
                },
            decreases bases@.len() - i,
        {
            let row: &BackupRow = bases[i].1;
            proof {
                assert(bases.deep_view()[i as int] == (
                    keys[i as int].1,
                    self@.backups[keys[i as int].1],
                ));
                assert(set.contains(keys[i as int]));
                assert(is_base_of(self@, table@, keys[i as int].1));
            }
            if let Some(spec) = &row.manifest.schema.pitr {
                if spec.generation == generation {
                    let w: u64 = row.manifest.created_wall_ms;
                    assert(times.contains(w));
                    best = match best {
                        None => Some((w, w)),
                        Some((first, last)) => Some(
                            (
                                if w < first {
                                    w
                                } else {
                                    first
                                },
                                if w > last {
                                    w
                                } else {
                                    last
                                },
                            ),
                        ),
                    };
                }
            }
            i = i + 1;
        }
        proof {
            assert forall|w: u64| #[trigger] times.contains(w) implies exists|j: int|
                0 <= j < keys.len() && taken_under(
                    self@.backups[(#[trigger] keys[j]).1],
                    generation,
                ) && keys[j].0 == w by {
                let id = choose|id: Seq<char>| #[trigger]
                    is_base_of(self@, table@, id) && taken_under(self@.backups[id], generation)
                        && self@.backups[id].manifest.created_wall_ms == w;
                assert(set.contains((w, id)));
                assert(keys.contains((w, id)));
                let j = choose|j: int| 0 <= j < keys.len() && keys[j] == (w, id);
                assert(taken_under(self@.backups[keys[j].1], generation));
            }
            match best {
                Some(p) => {
                    least_is(times, p.0);
                    greatest_is(times, p.1);
                },
                None => {},
            }
        }
        best
    }

    /// The instants that the latest recovery generation of `table` can be restored to, whether or
    /// not the table still exists; `None` if recovery was never enabled under that name.
    pub fn pitr_restore_window(&self, table: &str) -> (r: Option<PitrRestoreWindow>)
        ensures
            r == restore_window(self@, table@),
    {
        let name: String = table.to_owned();
        let enabled_ms: Option<u64>;
        let generation: u64;
        match self.table_pitr(table) {
            Some(spec) => {
                enabled_ms = Some(spec.enabled_wall_ms);
                generation = spec.generation;
            },
            None => {
                enabled_ms = None;
                generation = match self.pitr_generation.get(&name) {
                    Some(g) => *g,
                    None => {
                        return None;
                    },
                };
            },
        }
        if generation == 0 {
            return None;
        }
        let bases: Option<(u64, u64)> = self.base_bounds(table, generation);
        let bounds: Option<(u64, u64)> = self.seal_bounds(&name, generation);
        let earliest_ms: u64 = match enabled_ms {
            Some(ms) => ms,
            None => match (bases, bounds) {
                (Some((first, _)), _) => first,
                (None, Some((first, _))) => first,
                (None, None) => {
                    return None;
                },
            },
        };
        let end: u64 = match bounds {
            Some((_, last)) => last,
            None => match (bases, enabled_ms) {
                (Some((_, last)), _) => last,
                (None, Some(ms)) => ms,
                (None, None) => {
                    return None;
                },
            },
        };
        let latest_ms: u64 = if end < earliest_ms {
            earliest_ms
        } else {
            end
        };
        Some(PitrRestoreWindow { generation, earliest_ms, latest_ms })
    }

    pub(crate) fn apply_update_continuous_backups(
        &mut self,
        table: &TableName,
        enabled: bool,
        wall_ms: u64,
    ) -> (out: ApplyOutcome)
        requires
            generation_bounded(old(self)@, table@, enabled),
        ensures
            (final(self)@, out) == update_continuous_backups(old(self)@, table@, enabled, wall_ms),
    {
        let mut schema: TableSchema = match self.schemas.get(table) {
            None => {
                return ApplyOutcome::Rejected("no such table schema");
            },
            Some(schema) => {
                if enabled == schema.pitr.is_some() {
                    return ApplyOutcome::NoOp;
                }
                schema.dup()
            },
        };
        if enabled {
            let generation: u64 = match self.pitr_generation.get(table) {
                Some(g) => *g + 1,
                None => 1,
            };
            self.pitr_generation.insert(table.dup(), generation);
            schema.pitr = Some(PitrSpec { generation, enabled_wall_ms: wall_ms });
        } else {
            schema.pitr = None;
        }
        self.schemas.insert(table.dup(), schema);
        ApplyOutcome::Applied
    }

    pub(crate) fn apply_seal_pitr_segment(
        &mut self,
        tablet: TabletId,
        epoch: u64,
        row: PitrSegmentRow,
    ) -> (out: ApplyOutcome)
        requires
            !row.expired,
        ensures
            (final(self)@, out) == seal_pitr_segment(old(self)@, tablet, epoch, row.deep_view()),
    {
        let key: (TabletId, u64) = (tablet, epoch);
        let moved: Option<PitrSegmentRow> = match self.pitr_segments.get(&key) {
            Some(existing) => {
                let content_matches: bool = existing.table.same(&row.table) && existing.generation
                    == row.generation && existing.hlc_range.same(&row.hlc_range) && existing.count
                    == row.count && existing.seal_wall_ms == row.seal_wall_ms
                    && existing.object_id.same(&row.object_id);
                if !content_matches || existing.replicas.same(&row.replicas) {
                    return ApplyOutcome::NoOp;
                }
                let mut copy: PitrSegmentRow = existing.dup();
                copy.replicas = row.replicas.dup();
                Some(copy)
            },
            None => None,
        };
        if let Some(copy) = moved {
            self.pitr_segments.insert(key, copy);
            return ApplyOutcome::Applied;
        }
        let current: bool = match self.table_pitr(row.table.as_str()) {
            Some(spec) => spec.generation == row.generation,
            None => false,
        };
        let licensed: bool = current || self.pitr_generations_with_rows(
            row.table.as_str(),
        ).contains(&row.generation);
        if !licensed {
            return ApplyOutcome::Rejected(
                "PITR generation has no current schema entry and no existing catalog rows to extend",
            );
        }
        if epoch > 0 && !self.pitr_segments.contains_key(&(tablet, epoch - 1)) {
            return ApplyOutcome::Rejected("epoch chain gap: no prior epoch row for this tablet");
        }
        self.pitr_segments.insert(key, row);
        ApplyOutcome::Applied
    }

    pub(crate) fn apply_expire_pitr_segments(
        &mut self,
        ids: &Vec<(TabletId, u64)>,
        remove: bool,
    ) -> (out: ApplyOutcome)
        ensures
            (final(self)@, out) == expire_pitr_segments(old(self)@, ids.deep_view(), remove),
    {
        let ghost before = self@.pitr_segments;
        let ghost all = ids.deep_view();
        let mut changed: bool = false;
        let mut i: usize = 0;
        proof {
            assert(all.take(0).to_set() =~= Set::empty());
            assert(before =~= before.remove_keys(all.take(0).to_set()));
            assert(before =~= marked_segments(before, all.take(0).to_set()));
        }
        while i < ids.len()
            invariant
                i <= ids@.len(),
                all == ids.deep_view(),
                all.len() == ids@.len(),
                before == old(self)@.pitr_segments,
                self@ == (MetadataModel { pitr_segments: self@.pitr_segments, ..old(self)@ }),
                remove ==> self@.pitr_segments == before.remove_keys(
                    all.take(i as int).to_set(),
                ),
                !remove ==> self@.pitr_segments == marked_segments(
                    before,
                    all.take(i as int).to_set(),
                ),
                changed <==> self@.pitr_segments != before,
            decreases ids@.len() - i,
        {
            let key: (TabletId, u64) = ids[i];
            let ghost prior = self@.pitr_segments;
            proof {
                assert(all[i as int] == key);
                take_grows(all, i as int);
                assert(all.take(i + 1).to_set() =~= all.take(i as int).to_set().insert(key));
            }
            if remove {
                let taken: Option<PitrSegmentRow> = self.pitr_segments.remove(&key);
                if taken.is_some() {
                    changed = true;
                    assert(before.contains_key(key) && !self@.pitr_segments.contains_key(key));
                } else {
                    assert(self@.pitr_segments =~= prior);
                }
                assert(self@.pitr_segments =~= before.remove_keys(
                    all.take(i + 1).to_set(),
                ));
            } else {
                let marked: Option<PitrSegmentRow> = match self.pitr_segments.get(&key) {
                    Some(row) => if row.expired {
                        None
                    } else {
                        let mut copy: PitrSegmentRow = row.dup();
                        copy.expired = true;
                        Some(copy)
                    },
                    None => None,
                };
                if let Some(row) = marked {
                    self.pitr_segments.insert(key, row);
                    changed = true;
                    assert(!prior[key].expired && self@.pitr_segments[key].expired);
                    assert(prior[key].expired <== (before[key].expired || all.take(
                        i as int,
                    ).to_set().contains(key)));
                    assert(!before[key].expired);
                }
                assert(self@.pitr_segments =~= marked_segments(
                    before,
                    all.take(i + 1).to_set(),
                ));
            }
            i = i + 1;
        }
        assert(all.take(i as int) =~= all);
        if changed {
            ApplyOutcome::Applied
        } else {
            ApplyOutcome::NoOp
        }
    }
}

} // verus!
